//! What the node says on the blackboard and where it keeps its local
//! mailboxes: heartbeats, task results, registration, identity, outbox
//! forwarding and inbox files.

use vstd::prelude::*;
use crate::exec::{os_name, os_name_spec, Platform};
use crate::json::{lemma_member_at, member_spec, members, push_member, text, text_at, value_at, Json};
use crate::signature::{join_path, join_spec};
use crate::text::{
    chars_of, decimal, is_json_file, is_json_name, push_text, rfind_char, rfind_spec, safe_name,
    safe_name_spec, slice_from, string_of, topic_from_file_name, topic_of_name,
};

verus! {

broadcast use vstd::string::group_string_axioms;

// ---------------------------------------------------------------------------
// Paths
// ---------------------------------------------------------------------------

/// `<a><b><c>` as a string.
fn concat3(a: &str, b: &str, c: &str) -> (r: String)
    ensures
        r@ == a@ + b@ + c@,
{
    let mut v: Vec<char> = Vec::new();
    push_text(&mut v, a);
    push_text(&mut v, b);
    push_text(&mut v, c);
    string_of(&v)
}

/// `<a><b>` as a string.
fn concat2(a: &str, b: &str) -> (r: String)
    ensures
        r@ == a@ + b@,
{
    let mut v: Vec<char> = Vec::new();
    push_text(&mut v, a);
    push_text(&mut v, b);
    string_of(&v)
}

/// The node's heartbeat key: `/nodes/<node>/heartbeat`.
pub fn heartbeat_path(node: &str) -> (r: String)
    ensures
        r@ == "/nodes/"@ + node@ + "/heartbeat"@,
{
    concat3("/nodes/", node, "/heartbeat")
}

/// The node's registration key: `/nodes/<node>`.
pub fn node_path(node: &str) -> (r: String)
    ensures
        r@ == "/nodes/"@ + node@,
{
    concat2("/nodes/", node)
}

/// The task listing for the node: `/tasks?node=<node>`.
pub fn tasks_query_path(node: &str) -> (r: String)
    ensures
        r@ == "/tasks?node="@ + node@,
{
    concat2("/tasks?node=", node)
}

/// Where the node reports task results: `/tasks/<node>/result`.
pub fn result_path(node: &str) -> (r: String)
    ensures
        r@ == "/tasks/"@ + node@ + "/result"@,
{
    concat3("/tasks/", node, "/result")
}

/// The key that clears a handled card: `/<key>`.
pub fn clear_path(key: &str) -> (r: String)
    ensures
        r@ == "/"@ + key@,
{
    concat2("/", key)
}

/// The node's notes listing: `/notes/<node>/`.
pub fn notes_query_path(node: &str) -> (r: String)
    ensures
        r@ == "/notes/"@ + node@ + "/"@,
{
    concat3("/notes/", node, "/")
}

// ---------------------------------------------------------------------------
// Messages
// ---------------------------------------------------------------------------

/// The heartbeat: timestamp, `health: ok`, `bridge: rust` and the bridge's
/// version.
pub fn heartbeat_body(ts: &str, version: &str) -> (r: Json)
    ensures
        crate::json::text_object_is(
            r,
            seq!["ts"@, "health"@, "bridge"@, "ver"@],
            seq![ts@, "ok"@, "rust"@, version@],
        ),
{
    let mut f: Vec<(String, Json)> = Vec::new();
    push_member(&mut f, "ts", text(ts));
    push_member(&mut f, "health", text("ok"));
    push_member(&mut f, "bridge", text("rust"));
    push_member(&mut f, "ver", text(version));
    proof {
        let keys = seq!["ts"@, "health"@, "bridge"@, "ver"@];
        assert forall|i: int| 0 <= i < f@.len() implies #[trigger] f@[i] == f@.take(i + 1)[i] by {}
        assert forall|i: int| 0 <= i < f@.len() implies (#[trigger] f@[i]).0@ == keys[i] by {
            assert(f@[i] == f@.take(i + 1)[i]);
        }
    }
    Json::Object(f)
}

/// The id of a task: its `task_id` string, or `unknown`.
pub fn task_id_of(task: &Json) -> (r: String)
    ensures
        r@ == match task.str_member("task_id"@) {
            Some(t) => t,
            None => "unknown"@,
        },
{
    match task.str_member_exec("task_id") {
        Some(t) => crate::text::owned(t.as_str()),
        None => crate::text::owned("unknown"),
    }
}

/// The result report of a task: its id, whether it succeeded, its output,
/// the node and a timestamp, in that order.
pub open spec fn task_result_is(
    r: Json,
    task_id: Seq<char>,
    ok: bool,
    output: Seq<char>,
    node: Seq<char>,
    ts: Seq<char>,
) -> bool {
    let f = members(r);
    &&& r is Object
    &&& f.len() == 5
    &&& text_at(f, 0, "task_id"@, task_id)
    &&& f[1].0@ == "ok"@ && f[1].1 == Json::Bool(ok)
    &&& text_at(f, 2, "output"@, output)
    &&& text_at(f, 3, "node"@, node)
    &&& text_at(f, 4, "ts"@, ts)
}

/// Builds the result report of a task.
pub fn task_result(task_id: &str, ok: bool, output: &str, node: &str, ts: &str) -> (r: Json)
    ensures
        task_result_is(r, task_id@, ok, output@, node@, ts@),
{
    let mut f: Vec<(String, Json)> = Vec::new();
    push_member(&mut f, "task_id", text(task_id));
    push_member(&mut f, "ok", Json::Bool(ok));
    push_member(&mut f, "output", text(output));
    push_member(&mut f, "node", text(node));
    push_member(&mut f, "ts", text(ts));
    proof {
        assert(f@[0] == f@.take(1)[0]);
        assert(f@[1] == f@.take(2)[1]);
        assert(f@[2] == f@.take(3)[2]);
        assert(f@[3] == f@.take(4)[3]);
    }
    Json::Object(f)
}

/// What the node registers with: online, its capabilities, registered,
/// its OS, `bridge: rust`, a timestamp, and its device id when it has one.
pub open spec fn registration_is(r: Json, platform: Platform, ts: Seq<char>, device_id: Seq<char>) -> bool {
    let f = members(r);
    &&& r is Object
    &&& text_at(f, 0, "status"@, "online"@)
    &&& f.len() > 1 && f[1].0@ == "capabilities"@ && (f[1].1 matches Json::Array(caps) && caps@.len()
        == 6 && caps@[0].str_spec() == Some("shell"@) && caps@[1].str_spec() == Some("info"@)
        && caps@[2].str_spec() == Some("scan"@) && caps@[3].str_spec() == Some("ollama"@)
        && caps@[4].str_spec() == Some("dsh"@) && caps@[5].str_spec() == Some("rust-bridge"@))
    &&& value_at(f, 2, "registered"@, Json::Bool(true))
    &&& text_at(f, 3, "os"@, os_name_spec(platform))
    &&& text_at(f, 4, "bridge"@, "rust"@)
    &&& text_at(f, 5, "ts"@, ts)
    &&& if device_id.len() > 0 {
        f.len() == 7 && text_at(f, 6, "device_id"@, device_id)
    } else {
        f.len() == 6
    }
}

/// Builds the registration record.
pub fn registration(platform: Platform, ts: &str, device_id: &str) -> (r: Json)
    ensures
        registration_is(r, platform, ts@, device_id@),
{
    let mut caps: Vec<Json> = Vec::new();
    caps.push(text("shell"));
    caps.push(text("info"));
    caps.push(text("scan"));
    caps.push(text("ollama"));
    caps.push(text("dsh"));
    caps.push(text("rust-bridge"));
    let mut f: Vec<(String, Json)> = Vec::new();
    push_member(&mut f, "status", text("online"));
    push_member(&mut f, "capabilities", Json::Array(caps));
    push_member(&mut f, "registered", Json::Bool(true));
    push_member(&mut f, "os", text(os_name(platform)));
    push_member(&mut f, "bridge", text("rust"));
    push_member(&mut f, "ts", text(ts));
    let ghost f6 = f@;
    if chars_of(device_id).len() > 0 {
        push_member(&mut f, "device_id", text(device_id));
    }
    proof {
        assert(f@[0] == f@.take(1)[0]);
        assert(f@[1] == f@.take(2)[1]);
        assert(f@[2] == f@.take(3)[2]);
        assert(f@[3] == f@.take(4)[3]);
        assert(f@[4] == f@.take(5)[4]);
        assert(f@[5] == f6[5]);
    }
    Json::Object(f)
}

// ---------------------------------------------------------------------------
// Identity
// ---------------------------------------------------------------------------

/// The device id from a stored identity: its `device_id` string, or the
/// token when that is missing or empty; empty without a readable identity.
pub open spec fn stored_device_id_spec(identity: Option<Json>, token: Seq<char>) -> Seq<char> {
    match identity {
        Some(v) => {
            let d = match v.str_member("device_id"@) {
                Some(s) => s,
                None => Seq::empty(),
            };
            if d.len() == 0 && token.len() > 0 {
                token
            } else {
                d
            }
        },
        None => Seq::empty(),
    }
}

/// Reads the device id from a parsed identity file.
pub fn stored_device_id(identity: Option<&Json>, token: &str) -> (r: String)
    ensures
        r@ == stored_device_id_spec(
            match identity {
                Some(v) => Some(*v),
                None => None,
            },
            token@,
        ),
{
    match identity {
        Some(v) => {
            let d = match v.str_member_exec("device_id") {
                Some(s) => crate::text::owned(s.as_str()),
                None => String::new(),
            };
            let dl = chars_of(d.as_str());
            let tl = chars_of(token);
            if dl.len() == 0 && tl.len() > 0 {
                crate::text::owned(token)
            } else {
                d
            }
        },
        None => String::new(),
    }
}

/// The registration request for a new identity: `{"name": <node>}`.
pub fn register_body(node: &str) -> (r: Json)
    ensures
        crate::json::text_object_is(r, seq!["name"@], seq![node@]),
{
    let mut f: Vec<(String, Json)> = Vec::new();
    push_member(&mut f, "name", text(node));
    proof {
        assert(f@[0] == f@.take(1)[0]);
    }
    Json::Object(f)
}

/// The text of a string member, or empty.
pub open spec fn str_or_empty(v: Json, key: Seq<char>) -> Seq<char> {
    match v.str_member(key) {
        Some(s) => s,
        None => Seq::empty(),
    }
}

/// The identity made from the blackboard's registration reply: the device
/// id and token it issued (empty when missing), the node's name and the
/// time of registration. Returns the device id and the identity record.
pub fn new_identity(reply: &Json, node: &str, ts: &str) -> (r: (String, Json))
    ensures
        r.0@ == str_or_empty(*reply, "device_id"@),
        crate::json::text_object_is(
            r.1,
            seq!["device_id"@, "name"@, "token"@, "registered"@],
            seq![str_or_empty(*reply, "device_id"@), node@, str_or_empty(*reply, "token"@), ts@],
        ),
{
    let d = match reply.str_member_exec("device_id") {
        Some(s) => crate::text::owned(s.as_str()),
        None => String::new(),
    };
    let t = match reply.str_member_exec("token") {
        Some(s) => crate::text::owned(s.as_str()),
        None => String::new(),
    };
    let mut f: Vec<(String, Json)> = Vec::new();
    push_member(&mut f, "device_id", text(d.as_str()));
    push_member(&mut f, "name", text(node));
    push_member(&mut f, "token", text(t.as_str()));
    push_member(&mut f, "registered", text(ts));
    proof {
        let keys = seq!["device_id"@, "name"@, "token"@, "registered"@];
        assert forall|i: int| 0 <= i < f@.len() implies #[trigger] f@[i] == f@.take(i + 1)[i] by {}
        assert forall|i: int| 0 <= i < f@.len() implies (#[trigger] f@[i]).0@ == keys[i] by {
            assert(f@[i] == f@.take(i + 1)[i]);
        }
    }
    (d, Json::Object(f))
}

// ---------------------------------------------------------------------------
// Local mailboxes
// ---------------------------------------------------------------------------

/// The user's home for the mailboxes: `USERPROFILE` on Windows, `HOME`
/// elsewhere.
pub open spec fn mail_home(
    platform: Platform,
    user_profile: Option<Seq<char>>,
    home: Option<Seq<char>>,
) -> Option<Seq<char>> {
    if platform == Platform::Windows {
        user_profile
    } else {
        home
    }
}

/// The inbox directory: `<home>/.dsh/inbox`, none without a home.
pub open spec fn inbox_dir_spec(
    platform: Platform,
    user_profile: Option<Seq<char>>,
    home: Option<Seq<char>>,
) -> Option<Seq<char>> {
    match mail_home(platform, user_profile, home) {
        Some(h) => Some(join_spec(platform, join_spec(platform, h, ".dsh"@), "inbox"@)),
        None => None,
    }
}

/// The outbox directory: `<home>/.dsh/outbox`, or `outbox` under the
/// working directory (`.` when that is unknown) without a home.
pub open spec fn outbox_dir_spec(
    platform: Platform,
    user_profile: Option<Seq<char>>,
    home: Option<Seq<char>>,
    cwd: Option<Seq<char>>,
) -> Seq<char> {
    match mail_home(platform, user_profile, home) {
        Some(h) => join_spec(platform, join_spec(platform, h, ".dsh"@), "outbox"@),
        None => join_spec(
            platform,
            match cwd {
                Some(c) => c,
                None => "."@,
            },
            "outbox"@,
        ),
    }
}

/// The directory `<home>/.dsh/<leaf>`.
fn dsh_dir(platform: Platform, home: &str, leaf: &str) -> (r: String)
    ensures
        r@ == join_spec(platform, join_spec(platform, home@, ".dsh"@), leaf@),
{
    let d = join_path(platform, home, ".dsh");
    join_path(platform, d.as_str(), leaf)
}

/// The inbox directory.
pub fn inbox_dir(platform: Platform, user_profile: Option<String>, home: Option<String>) -> (r:
    Option<String>)
    ensures
        crate::logger::opt_view(r) == inbox_dir_spec(
            platform,
            crate::logger::opt_view(user_profile),
            crate::logger::opt_view(home),
        ),
{
    let h = if platform == Platform::Windows {
        user_profile
    } else {
        home
    };
    match h {
        Some(h) => Some(dsh_dir(platform, h.as_str(), "inbox")),
        None => None,
    }
}

/// The outbox directory.
pub fn outbox_dir(
    platform: Platform,
    user_profile: Option<String>,
    home: Option<String>,
    cwd: Option<String>,
) -> (r: String)
    ensures
        r@ == outbox_dir_spec(
            platform,
            crate::logger::opt_view(user_profile),
            crate::logger::opt_view(home),
            crate::logger::opt_view(cwd),
        ),
{
    let h = if platform == Platform::Windows {
        user_profile
    } else {
        home
    };
    match h {
        Some(h) => dsh_dir(platform, h.as_str(), "outbox"),
        None => match cwd {
            Some(c) => join_path(platform, c.as_str(), "outbox"),
            None => join_path(platform, ".", "outbox"),
        },
    }
}

// ---------------------------------------------------------------------------
// Outbox
// ---------------------------------------------------------------------------

/// The topic an outbox file is forwarded under: a `.json` file's name
/// without its trailing `.json`; none for other files, or when that leaves
/// nothing or a name starting with `.`.
pub open spec fn outbox_topic_spec(file_name: Seq<char>) -> Option<Seq<char>> {
    let t = topic_of_name(file_name);
    if is_json_name(file_name) && t.len() > 0 && t[0] != '.' {
        Some(t)
    } else {
        None
    }
}

/// The topic of an outbox file, when it is forwarded.
pub fn outbox_topic(file_name: &str) -> (r: Option<String>)
    ensures
        crate::logger::opt_view(r) == outbox_topic_spec(file_name@),
{
    if !is_json_file(file_name) {
        return None;
    }
    let t = topic_from_file_name(file_name);
    let tc = chars_of(t.as_str());
    if tc.len() == 0 || tc[0] == '.' {
        return None;
    }
    Some(t)
}

/// What an outbox file sends: the file's JSON when it parses, otherwise
/// `{"content": <the file's text>}`.
pub open spec fn outbox_value_is(r: Json, content: Seq<char>, parsed: Option<Json>) -> bool {
    match parsed {
        Some(v) => r == v,
        None => crate::json::text_object_is(r, seq!["content"@], seq![content]),
    }
}

/// The value of an outbox file.
pub fn outbox_value(content: &str, parsed: Option<Json>) -> (r: Json)
    ensures
        outbox_value_is(r, content@, parsed),
{
    match parsed {
        Some(v) => v,
        None => {
            let mut f: Vec<(String, Json)> = Vec::new();
            push_member(&mut f, "content", text(content));
            proof {
                assert(f@[0] == f@.take(1)[0]);
            }
            Json::Object(f)
        },
    }
}

/// Where an outbox message goes: the node in its `to` field (this node
/// without one), under the topic in its `topic` field (the file's topic
/// without one). The key is `/notes/<target>/<topic>`.
pub open spec fn outbox_route_spec(value: Json, node: Seq<char>, file_topic: Seq<char>) -> (
    Seq<char>,
    Seq<char>,
) {
    let target = match value.str_member("to"@) {
        Some(t) => t,
        None => node,
    };
    let topic = match value.str_member("topic"@) {
        Some(t) => t,
        None => file_topic,
    };
    (topic, "/notes/"@ + target + "/"@ + topic)
}

/// The topic and blackboard key of an outbox message.
pub fn outbox_route(value: &Json, node: &str, file_topic: &str) -> (r: (String, String))
    ensures
        r.0@ == outbox_route_spec(*value, node@, file_topic@).0,
        r.1@ == outbox_route_spec(*value, node@, file_topic@).1,
{
    let target = match value.str_member_exec("to") {
        Some(t) => crate::text::owned(t.as_str()),
        None => crate::text::owned(node),
    };
    let topic = match value.str_member_exec("topic") {
        Some(t) => crate::text::owned(t.as_str()),
        None => crate::text::owned(file_topic),
    };
    let mut v: Vec<char> = Vec::new();
    push_text(&mut v, "/notes/");
    push_text(&mut v, target.as_str());
    push_text(&mut v, "/");
    push_text(&mut v, topic.as_str());
    (topic, string_of(&v))
}

/// A message forwarded from the outbox lands among the notes of the node
/// it is addressed to (its `to`, or the sending node itself), under a key
/// that node takes in, whatever the note holds and whatever it subscribed
/// to.
pub proof fn lemma_outbox_reaches_recipient(
    value: Json,
    node: Seq<char>,
    file_topic: Seq<char>,
    entry: Json,
    subs: Option<Seq<Seq<char>>>,
)
    ensures
        ({
            let target = match value.str_member("to"@) {
                Some(t) => t,
                None => node,
            };
            let path = outbox_route_spec(value, node, file_topic).1;
            &&& path.len() > 0 && path[0] == '/'
            &&& crate::listing::is_relevant(target, path.drop_first(), entry, subs)
        }),
{
    reveal_strlit("/notes/");
    reveal_strlit("notes/");
    reveal_strlit("/");
    let target = match value.str_member("to"@) {
        Some(t) => t,
        None => node,
    };
    let topic = outbox_route_spec(value, node, file_topic).0;
    let path = outbox_route_spec(value, node, file_topic).1;
    assert(path == "/notes/"@ + target + "/"@ + topic);
    assert(path.drop_first() =~= "notes/"@ + target + "/"@ + topic);
    assert(("notes/"@ + target + "/"@).is_prefix_of(path.drop_first()));
}

/// A signed message: an object gets `signature` and `signer_pub` set (its
/// other members kept); any other value is sent as it is.
pub fn attach_signature(value: Json, signature: &str, signer_pub: &str) -> (r: Json)
    ensures
        !(value is Object) ==> r == value,
        value is Object ==> {
            &&& r is Object
            &&& r.str_member("signature"@) == Some(signature@)
            &&& r.str_member("signer_pub"@) == Some(signer_pub@)
            &&& forall|k: Seq<char>|
                k != "signature"@ && k != "signer_pub"@ ==> #[trigger] r.get_spec(k)
                    == value.get_spec(k)
        },
{
    match value {
        Json::Object(mut f) => {
            let ghost f0 = f@;
            crate::json::insert_member(&mut f, "signature", text(signature));
            let ghost f1 = f@;
            crate::json::insert_member(&mut f, "signer_pub", text(signer_pub));
            proof {
                reveal_strlit("signature");
                reveal_strlit("signer_pub");
                assert("signature"@.len() != "signer_pub"@.len());
                assert(member_spec(f@, "signature"@) == member_spec(f1, "signature"@));
                assert forall|k: Seq<char>| k != "signature"@ && k != "signer_pub"@ implies #[trigger] member_spec(f@, k) == member_spec(f0, k) by {
                    assert(member_spec(f@, k) == member_spec(f1, k));
                }
            }
            Json::Object(f)
        },
        other => other,
    }
}

/// A forwarded outbox file is removed only once the blackboard answered
/// 200; otherwise it stays for the next round.
pub fn outbox_delivered(status: u16) -> (r: bool)
    ensures
        r == (status == 200),
{
    status == 200
}

// ---------------------------------------------------------------------------
// Inbox
// ---------------------------------------------------------------------------

/// The last segment of a note's key: what follows its last `/`.
pub open spec fn last_segment(key: Seq<char>) -> Seq<char> {
    match rfind_spec(key, '/') {
        Some(i) => key.skip(i + 1),
        None => key,
    }
}

/// The inbox file of a note: `<safe topic>.json`, where the topic is the
/// key's last segment with every character that is neither alphanumeric
/// nor `-` replaced by `_`.
pub open spec fn inbox_file_spec(key: Seq<char>) -> Seq<char> {
    safe_name_spec(last_segment(key)) + ".json"@
}

/// The names a note is written under in the inbox: its file (also the name
/// of the marker under `.processed` that the model runner already handled
/// it), and the scratch file it is written to first (under `.tmp`).
pub fn inbox_names(key: &str) -> (r: (String, String))
    ensures
        r.0@ == inbox_file_spec(key@),
        r.1@ == safe_name_spec(last_segment(key@)) + ".tmp"@,
{
    let kc = chars_of(key);
    proof {
        assert(kc@.len() == kc.len());
    }
    let seg = match rfind_char(&kc, '/') {
        Some(i) => string_of(&slice_from(&kc, i + 1)),
        None => string_of(&kc),
    };
    let safe = safe_name(seg.as_str());
    let file = concat2(safe.as_str(), ".json");
    let tmp = concat2(safe.as_str(), ".tmp");
    (file, tmp)
}

/// A note is not written to the inbox again when it asks for the model
/// (`llm: true`) and the model runner already handled it.
pub fn skip_inbox_write(note: &Json, already_processed: bool) -> (r: bool)
    ensures
        r == (note.bool_member("llm"@) == Some(true) && already_processed),
{
    let llm = match note.bool_member_exec("llm") {
        Some(b) => b,
        None => false,
    };
    llm && already_processed
}

} // verus!
