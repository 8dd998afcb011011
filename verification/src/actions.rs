//! Task-card dispatch: which of the whitelisted actions a card asks for,
//! with what arguments, and how their results are reported.

use vstd::prelude::*;
use crate::bb::Bb;
use crate::json::{push_member, text, Json};
use crate::text::{push_text, string_of, take_spec, trim_spec};

verus! {

broadcast use vstd::string::group_string_axioms;

/// How long a shell action may run.
pub const SHELL_TIMEOUT_SECS: u64 = 300;

/// What running a task card comes to.
pub enum Dispatch {
    /// Nothing to run: the result is known.
    Done { ok: bool, output: String },
    /// Run `cmd` in the platform's shell.
    Shell { cmd: String, timeout_secs: u64 },
    /// Report the node's environment.
    Info,
    /// List the files under `path`, `depth` directory levels deep.
    Scan { path: String, depth: u64 },
    /// Ask the local Ollama server, sending this request body.
    Ollama { body: Json },
}

/// The string member `key` of the card's `payload` object.
pub open spec fn payload_str(task: Json, key: Seq<char>) -> Option<Seq<char>> {
    match task.get_spec("payload"@) {
        Some(p) => p.str_member(key),
        None => None,
    }
}

/// The action a card names (`shell` when it names none).
pub open spec fn action_spec(task: Json) -> Seq<char> {
    match task.str_member("action"@) {
        Some(a) => a,
        None => "shell"@,
    }
}

/// The command of a card: its own `cmd`, else its payload's, else empty.
pub open spec fn cmd_spec(task: Json) -> Seq<char> {
    match task.str_member("cmd"@) {
        Some(c) => c,
        None => match payload_str(task, "cmd"@) {
            Some(c) => c,
            None => Seq::empty(),
        },
    }
}

/// The non-negative integer member `key` of the card's payload.
pub open spec fn payload_uint(task: Json, key: Seq<char>) -> Option<u64> {
    match task.get_spec("payload"@) {
        Some(p) => match p.get_spec(key) {
            Some(Json::PosInt(n)) => Some(n),
            _ => None,
        },
        None => None,
    }
}

/// The request body for Ollama: the payload's `model` (default
/// `qwen2.5:7b`) and `prompt` (default empty), no streaming, temperature 0.
pub open spec fn ollama_body_is(body: Json, task: Json) -> bool {
    let f = crate::json::members(body);
    &&& body is Object
    &&& f.len() == 4
    &&& crate::json::text_at(
        f,
        0,
        "model"@,
        match payload_str(task, "model"@) {
            Some(m) => m,
            None => "qwen2.5:7b"@,
        },
    )
    &&& crate::json::text_at(
        f,
        1,
        "prompt"@,
        match payload_str(task, "prompt"@) {
            Some(p) => p,
            None => Seq::empty(),
        },
    )
    &&& f[2].0@ == "stream"@ && f[2].1 == Json::Bool(false)
    &&& f[3].0@ == "options"@ && crate::json::members(f[3].1).len() == 1
    &&& f[3].1 is Object
    &&& crate::json::members(f[3].1)[0].0@ == "temperature"@
    &&& crate::json::members(f[3].1)[0].1 == Json::PosInt(0)
}

/// What a card comes to, by its action: `shell`, `exec`, `run` run its
/// command with a 300 s limit; `info`, `status` report the environment;
/// `scan` lists the payload's `path` (default `.`) to its `depth` (default
/// 2); `ollama` asks Ollama; `dsh` is refused as not wired on this node;
/// any other action is refused as unknown.
pub open spec fn dispatch_is(d: Dispatch, task: Json) -> bool {
    let a = action_spec(task);
    if a == "shell"@ || a == "exec"@ || a == "run"@ {
        d matches Dispatch::Shell { cmd, timeout_secs } && cmd@ == cmd_spec(task) && timeout_secs
            == SHELL_TIMEOUT_SECS
    } else if a == "info"@ || a == "status"@ {
        d is Info
    } else if a == "scan"@ {
        d matches Dispatch::Scan { path, depth } && path@ == (match payload_str(task, "path"@) {
            Some(p) => p,
            None => "."@,
        }) && depth == (match payload_uint(task, "depth"@) {
            Some(n) => n,
            None => 2u64,
        })
    } else if a == "ollama"@ {
        d matches Dispatch::Ollama { body } && ollama_body_is(body, task)
    } else if a == "dsh"@ {
        d matches Dispatch::Done { ok, output } && !ok && output@
            == "dsh action requires DSH runtime on node; not yet wired"@
    } else {
        d matches Dispatch::Done { ok, output } && !ok && output@ == "unknown action: "@ + a
    }
}

/// The string member `key` of the card's payload, executable.
fn payload_str_exec<'a>(task: &'a Json, key: &str) -> (r: Option<&'a String>)
    ensures
        match r {
            Some(s) => payload_str(*task, key@) == Some(s@),
            None => payload_str(*task, key@) is None,
        },
{
    match task.get("payload") {
        Some(p) => p.str_member_exec(key),
        None => None,
    }
}

/// Decides what a task card comes to.
pub fn execute(task: &Json) -> (d: Dispatch)
    ensures
        dispatch_is(d, *task),
{
    let mut action = String::new();
    match task.str_member_exec("action") {
        Some(a) => crate::text::push_str(&mut action, a.as_str()),
        None => crate::text::push_str(&mut action, "shell"),
    }
    let a = action.as_str();
    let is = |name: &str| -> (b: bool)
        ensures
            b == (a@ == name@),
        { crate::text::same_text(a, name) };
    if is("shell") || is("exec") || is("run") {
        let mut cmd = String::new();
        match task.str_member_exec("cmd") {
            Some(c) => crate::text::push_str(&mut cmd, c.as_str()),
            None => match payload_str_exec(task, "cmd") {
                Some(c) => crate::text::push_str(&mut cmd, c.as_str()),
                None => crate::text::push_str(&mut cmd, ""),
            },
        }
        proof {
            reveal_strlit("");
        }
        Dispatch::Shell { cmd, timeout_secs: SHELL_TIMEOUT_SECS }
    } else if is("info") || is("status") {
        Dispatch::Info
    } else if is("scan") {
        let mut path = String::new();
        match payload_str_exec(task, "path") {
            Some(p) => crate::text::push_str(&mut path, p.as_str()),
            None => crate::text::push_str(&mut path, "."),
        }
        let depth = match task.get("payload") {
            Some(p) => match p.get("depth") {
                Some(d) => match d.as_u64() {
                    Some(n) => n,
                    None => 2,
                },
                None => 2,
            },
            None => 2,
        };
        Dispatch::Scan { path, depth }
    } else if is("ollama") {
        Dispatch::Ollama { body: ollama_body(task) }
    } else if is("dsh") {
        Dispatch::Done {
            ok: false,
            output: crate::text::owned("dsh action requires DSH runtime on node; not yet wired"),
        }
    } else {
        let mut v: Vec<char> = Vec::new();
        push_text(&mut v, "unknown action: ");
        push_text(&mut v, a);
        Dispatch::Done { ok: false, output: string_of(&v) }
    }
}

/// The Ollama request body for a card.
pub fn ollama_body(task: &Json) -> (body: Json)
    ensures
        ollama_body_is(body, *task),
{
    let model = match payload_str_exec(task, "model") {
        Some(m) => text(m.as_str()),
        None => text("qwen2.5:7b"),
    };
    let prompt = match payload_str_exec(task, "prompt") {
        Some(p) => text(p.as_str()),
        None => text(""),
    };
    proof {
        reveal_strlit("");
        assert(""@ =~= Seq::<char>::empty());
    }
    let mut options: Vec<(String, Json)> = Vec::new();
    push_member(&mut options, "temperature", Json::PosInt(0));
    let mut f: Vec<(String, Json)> = Vec::new();
    push_member(&mut f, "model", model);
    push_member(&mut f, "prompt", prompt);
    push_member(&mut f, "stream", Json::Bool(false));
    push_member(&mut f, "options", Json::Object(options));
    proof {
        assert(f@[0] == f@.take(1)[0]);
        assert(f@[1] == f@.take(2)[1]);
        assert(f@[2] == f@.take(3)[2]);
        assert(f@[3] == f@.last());
        assert(options@[0] == options@.last());
        let body = Json::Object(f);
        let ff = crate::json::members(body);
        assert(ff == f@);
        assert(ff.len() == 4);
        assert(crate::json::text_at(ff, 0, "model"@, match payload_str(*task, "model"@) {
            Some(m) => m,
            None => "qwen2.5:7b"@,
        }));
        assert(crate::json::text_at(ff, 1, "prompt"@, match payload_str(*task, "prompt"@) {
            Some(m) => m,
            None => Seq::empty(),
        }));
        assert(ff[3].1 is Object);
        assert(crate::json::members(ff[3].1) == options@);
    }
    Json::Object(f)
}

/// Where Ollama listens: this machine, port 11434.
pub fn ollama_endpoint() -> (b: Bb)
    ensures
        b.host@ == crate::bb::url_host("http://localhost:11434"@),
        b.port == crate::bb::url_port("http://localhost:11434"@),
{
    Bb::new("http://localhost:11434")
}

/// What asking Ollama comes to: a transport error or a status other than
/// 200 is a failure naming it; an unreadable reply is a failure naming the
/// parse error; otherwise success with the reply's trimmed `response` text
/// (empty when it has none).
pub open spec fn ollama_outcome_spec(reply: Result<u16, Seq<char>>, parsed: Result<Json, Seq<char>>) -> (
    bool,
    Seq<char>,
) {
    match reply {
        Err(e) => (false, "ollama error: "@ + e),
        Ok(st) => if st != 200 {
            (false, "ollama http "@ + crate::text::decimal(st as nat))
        } else {
            match parsed {
                Err(e) => (false, "ollama bad json: "@ + e),
                Ok(v) => (
                    true,
                    trim_spec(
                        match v.str_member("response"@) {
                            Some(t) => t,
                            None => Seq::empty(),
                        },
                    ),
                ),
            }
        },
    }
}

/// Reads Ollama's reply: the HTTP status (or the transport error) and the
/// body parsed as JSON (or the parse error).
pub fn ollama_outcome(reply: Result<u16, String>, parsed: Result<Json, String>) -> (r: (
    bool,
    String,
))
    ensures
        r.0 == ollama_outcome_spec(
            match reply {
                Ok(s) => Ok(s),
                Err(e) => Err(e@),
            },
            match parsed {
                Ok(v) => Ok(v),
                Err(e) => Err(e@),
            },
        ).0,
        r.1@ == ollama_outcome_spec(
            match reply {
                Ok(s) => Ok(s),
                Err(e) => Err(e@),
            },
            match parsed {
                Ok(v) => Ok(v),
                Err(e) => Err(e@),
            },
        ).1,
{
    match reply {
        Err(e) => {
            let mut v: Vec<char> = Vec::new();
            push_text(&mut v, "ollama error: ");
            push_text(&mut v, e.as_str());
            (false, string_of(&v))
        },
        Ok(st) => if st != 200 {
            let mut v: Vec<char> = Vec::new();
            push_text(&mut v, "ollama http ");
            crate::text::push_decimal(&mut v, st as u64);
            (false, string_of(&v))
        } else {
            match parsed {
                Err(e) => {
                    let mut v: Vec<char> = Vec::new();
                    push_text(&mut v, "ollama bad json: ");
                    push_text(&mut v, e.as_str());
                    (false, string_of(&v))
                },
                Ok(j) => match j.str_member_exec("response") {
                    Some(t) => (true, crate::text::trim_str(t.as_str())),
                    None => {
                        proof {
                            reveal_strlit("");
                        }
                        (true, crate::text::trim_str(""))
                    },
                },
            }
        },
    }
}

// ---------------------------------------------------------------------------
// Directory scan
// ---------------------------------------------------------------------------

/// Files listed before a scan stops descending.
pub const SCAN_LIMIT: usize = 2000;

/// A directory at `level` below the scan's root is read when the level is
/// within `max_depth` and no more than 2000 files were listed so far.
pub fn may_descend(level: u64, max_depth: u64, listed: usize) -> (r: bool)
    ensures
        r == (level <= max_depth && listed <= SCAN_LIMIT),
{
    !(level > max_depth || listed > SCAN_LIMIT)
}

/// Another file is listed only while fewer than 2000 are, so a scan lists
/// at most 2000 files.
pub fn may_list(listed: usize) -> (r: bool)
    ensures
        r == (listed < SCAN_LIMIT),
        r ==> listed + 1 <= SCAN_LIMIT,
{
    listed < SCAN_LIMIT
}

/// The counts of listed files through a scan, one step per file looked
/// at: a step adds a file only where `may_list` allowed it.
pub open spec fn guarded_counts(counts: Seq<int>) -> bool {
    forall|i: int|
        0 <= i < counts.len() - 1 ==> (#[trigger] counts[i + 1] == counts[i] || (counts[i + 1]
            == counts[i] + 1 && counts[i] < SCAN_LIMIT))
}

/// A scan whose every listing was allowed by `may_list` never holds more
/// than 2000 files, however its directories are laid out.
pub proof fn lemma_scan_capped(counts: Seq<int>)
    requires
        counts.len() > 0,
        0 <= counts[0] <= SCAN_LIMIT,
        guarded_counts(counts),
    ensures
        forall|i: int| 0 <= i < counts.len() ==> 0 <= #[trigger] counts[i] <= SCAN_LIMIT,
    decreases counts.len(),
{
    if counts.len() > 1 {
        let front = counts.drop_last();
        assert forall|i: int| 0 <= i < front.len() - 1 implies (#[trigger] front[i + 1] == front[i]
            || (front[i + 1] == front[i] + 1 && front[i] < SCAN_LIMIT)) by {
            assert(front[i + 1] == counts[i + 1] && front[i] == counts[i]);
        }
        lemma_scan_capped(front);
        assert forall|i: int| 0 <= i < counts.len() implies 0 <= #[trigger] counts[i] <= SCAN_LIMIT by {
            if i < front.len() {
                assert(counts[i] == front[i]);
            } else {
                let k = counts.len() - 2;
                assert(counts[k] == front[k]);
                assert(counts[k + 1] == counts[k] || (counts[k + 1] == counts[k] + 1 && counts[k]
                    < SCAN_LIMIT));
            }
        }
    }
}

/// One listed file: its path, its size in bytes and its extension (empty
/// without one).
pub open spec fn scan_item_is(r: Json, path: Seq<char>, size: u64, ext: Option<Seq<char>>) -> bool {
    let f = crate::json::members(r);
    &&& r is Object
    &&& f.len() == 3
    &&& crate::json::text_at(f, 0, "path"@, path)
    &&& f[1].0@ == "size"@ && f[1].1 == Json::PosInt(size)
    &&& crate::json::text_at(
        f,
        2,
        "type"@,
        match ext {
            Some(e) => e,
            None => Seq::empty(),
        },
    )
}

/// Describes one listed file.
pub fn scan_item(path: &str, size: u64, ext: Option<&str>) -> (r: Json)
    ensures
        scan_item_is(
            r,
            path@,
            size,
            match ext {
                Some(e) => Some(e@),
                None => None,
            },
        ),
{
    let mut f: Vec<(String, Json)> = Vec::new();
    push_member(&mut f, "path", text(path));
    push_member(&mut f, "size", Json::PosInt(size));
    match ext {
        Some(e) => push_member(&mut f, "type", text(e)),
        None => push_member(&mut f, "type", Json::Str(String::new())),
    }
    proof {
        assert(f@[0] == f@.take(1)[0]);
        assert(f@[1] == f@.take(2)[1]);
    }
    Json::Object(f)
}

/// The scan report: the root, how many files were listed, and the list.
pub open spec fn scan_report_is(r: Json, root: Seq<char>, items: Seq<Json>) -> bool {
    let f = crate::json::members(r);
    &&& r is Object
    &&& f.len() == 3
    &&& crate::json::text_at(f, 0, "root"@, root)
    &&& f[1].0@ == "count"@ && f[1].1 == Json::PosInt(items.len() as u64)
    &&& f[2].0@ == "items"@ && (f[2].1 matches Json::Array(v) && v@ == items)
}

/// Builds the scan report.
pub fn scan_report(root: &str, items: Vec<Json>) -> (r: Json)
    ensures
        scan_report_is(r, root@, items@),
{
    let ghost iv = items@;
    let n = items.len();
    let mut f: Vec<(String, Json)> = Vec::new();
    push_member(&mut f, "root", text(root));
    push_member(&mut f, "count", Json::PosInt(n as u64));
    push_member(&mut f, "items", Json::Array(items));
    proof {
        assert(f@[0] == f@.take(1)[0]);
        assert(f@[1] == f@.take(2)[1]);
    }
    Json::Object(f)
}

} // verus!
