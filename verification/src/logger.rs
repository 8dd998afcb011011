//! Structured logging: one JSON object per line, filtered by level, written
//! to a size-rotated file under a per-platform directory.
//!
//! The caller supplies the clock reading and performs the writes; this module
//! decides whether a record is written, what the line holds, where the file
//! lives and how rotation renames the older files.

use vstd::prelude::*;
use crate::exec::Platform;
use crate::json::{json_escape, json_unescape, lemma_escape_clean, lemma_unescape_escape, push_json_escaped};
use crate::text::{push_text, string_of};

verus! {

broadcast use vstd::string::group_string_axioms;

/// The project name that the log file is named after.
pub const PROJECT: &'static str = "node-bridge";

/// Level of debugging detail.
pub const LEVEL_DEBUG: u8 = 0;

/// Level of ordinary progress records.
pub const LEVEL_INFO: u8 = 1;

/// Level of recoverable problems.
pub const LEVEL_WARN: u8 = 2;

/// Level of failures.
pub const LEVEL_ERROR: u8 = 3;

/// Size in bytes above which the log file is rotated before the next write.
pub const ROTATE_BYTES: u64 = 5242880;

/// Rotated files kept besides the current one.
pub const KEEP_ROTATED: u64 = 3;

// ---------------------------------------------------------------------------
// Filtering and line format
// ---------------------------------------------------------------------------

/// A record is written when its level is at least the configured threshold.
pub fn should_log(level: u8, threshold: u8) -> (r: bool)
    ensures
        r == (level >= threshold),
{
    level >= threshold
}

/// Escapes a text for a JSON string.
pub fn escape_message(msg: &str) -> (r: String)
    ensures
        r@ == json_escape(msg@),
{
    let mut out: Vec<char> = Vec::new();
    push_json_escaped(&mut out, msg);
    proof {
        assert(out@ =~= json_escape(msg@));
    }
    string_of(&out)
}

/// The log line: `{"ts":"..","level":"..","comp":"..","msg":".."}` and a
/// line feed, each field written as a JSON string.
pub open spec fn log_line_spec(
    ts: Seq<char>,
    level_name: Seq<char>,
    comp: Seq<char>,
    msg: Seq<char>,
) -> Seq<char> {
    "{\"ts\":\""@ + json_escape(ts) + "\",\"level\":\""@ + json_escape(level_name)
        + "\",\"comp\":\""@ + json_escape(comp) + "\",\"msg\":\""@ + json_escape(msg)
        + "\"}\n"@
}

/// Every record is exactly one line: the line ends with its only line
/// feed, whatever its fields hold.
pub proof fn lemma_log_line_is_one_line(
    ts: Seq<char>,
    level_name: Seq<char>,
    comp: Seq<char>,
    msg: Seq<char>,
)
    ensures
        log_line_spec(ts, level_name, comp, msg).last() == '\n',
        forall|i: int|
            0 <= i < log_line_spec(ts, level_name, comp, msg).len() - 1 ==> #[trigger] log_line_spec(
                ts,
                level_name,
                comp,
                msg,
            )[i] != '\n',
{
    reveal_strlit("{\"ts\":\"");
    reveal_strlit("\",\"level\":\"");
    reveal_strlit("\",\"comp\":\"");
    reveal_strlit("\",\"msg\":\"");
    reveal_strlit("\"}\n");
    reveal_strlit("\"}");
    lemma_escape_clean(ts);
    lemma_escape_clean(level_name);
    lemma_escape_clean(comp);
    lemma_escape_clean(msg);
    let p1 = "{\"ts\":\""@;
    let p2 = "\",\"level\":\""@;
    let p3 = "\",\"comp\":\""@;
    let p4 = "\",\"msg\":\""@;
    let tail = "\"}"@;
    let e1 = json_escape(ts);
    let e2 = json_escape(level_name);
    let e3 = json_escape(comp);
    let e4 = json_escape(msg);
    let head = p1 + e1 + p2 + e2 + p3 + e3 + p4 + e4 + tail;
    let l = log_line_spec(ts, level_name, comp, msg);
    assert(l =~= head + seq!['\n']);
    assert forall|i: int| 0 <= i < head.len() implies #[trigger] head[i] != '\n' by {
        let n1 = p1.len() as int;
        let n2 = n1 + e1.len();
        let n3 = n2 + p2.len();
        let n4 = n3 + e2.len();
        let n5 = n4 + p3.len();
        let n6 = n5 + e3.len();
        let n7 = n6 + p4.len();
        let n8 = n7 + e4.len();
        if i < n1 {
            assert(head[i] == p1[i]);
        } else if i < n2 {
            assert(head[i] == e1[i - n1]);
            assert(e1[i - n1] as u32 >= 32);
        } else if i < n3 {
            assert(head[i] == p2[i - n2]);
        } else if i < n4 {
            assert(head[i] == e2[i - n3]);
            assert(e2[i - n3] as u32 >= 32);
        } else if i < n5 {
            assert(head[i] == p3[i - n4]);
        } else if i < n6 {
            assert(head[i] == e3[i - n5]);
            assert(e3[i - n5] as u32 >= 32);
        } else if i < n7 {
            assert(head[i] == p4[i - n6]);
        } else if i < n8 {
            assert(head[i] == e4[i - n7]);
            assert(e4[i - n7] as u32 >= 32);
        } else {
            assert(head[i] == tail[i - n8]);
        }
    }
    assert forall|i: int| 0 <= i < l.len() - 1 implies #[trigger] l[i] != '\n' by {
        assert(l[i] == head[i]);
    }
}

/// Every record is one JSON object, `{"ts":..,"level":..,"comp":..,"msg":..}`,
/// whose four string members a JSON reader reads back as the timestamp,
/// the level name, the component and the message, whatever they hold.
pub proof fn lemma_log_line_reads_back(
    ts: Seq<char>,
    level_name: Seq<char>,
    comp: Seq<char>,
    msg: Seq<char>,
)
    ensures
        log_line_spec(ts, level_name, comp, msg) == "{\"ts\":\""@ + json_escape(ts)
            + "\",\"level\":\""@ + json_escape(level_name) + "\",\"comp\":\""@ + json_escape(comp)
            + "\",\"msg\":\""@ + json_escape(msg) + "\"}\n"@,
        json_unescape(json_escape(ts)) == Some(ts),
        json_unescape(json_escape(level_name)) == Some(level_name),
        json_unescape(json_escape(comp)) == Some(comp),
        json_unescape(json_escape(msg)) == Some(msg),
{
    lemma_unescape_escape(ts);
    lemma_unescape_escape(level_name);
    lemma_unescape_escape(comp);
    lemma_unescape_escape(msg);
}

/// Formats one log line.
pub fn log_line(ts: &str, level_name: &str, comp: &str, msg: &str) -> (r: String)
    ensures
        r@ == log_line_spec(ts@, level_name@, comp@, msg@),
{
    let mut v: Vec<char> = Vec::new();
    push_text(&mut v, "{\"ts\":\"");
    push_json_escaped(&mut v, ts);
    push_text(&mut v, "\",\"level\":\"");
    push_json_escaped(&mut v, level_name);
    push_text(&mut v, "\",\"comp\":\"");
    push_json_escaped(&mut v, comp);
    push_text(&mut v, "\",\"msg\":\"");
    push_json_escaped(&mut v, msg);
    push_text(&mut v, "\"}\n");
    string_of(&v)
}

/// The line to write for a record of `level`, stamped `ts`, under the
/// configured `threshold`: none when the level is below it.
pub fn log(threshold: u8, level: u8, level_name: &str, comp: &str, msg: &str, ts: &str) -> (r:
    Option<String>)
    ensures
        level < threshold ==> r is None,
        level >= threshold ==> (r matches Some(l) && l@ == log_line_spec(
            ts@,
            level_name@,
            comp@,
            msg@,
        )),
{
    if !should_log(level, threshold) {
        return None;
    }
    Some(log_line(ts, level_name, comp, msg))
}

// ---------------------------------------------------------------------------
// Where the log lives
// ---------------------------------------------------------------------------

/// The default log directory: `<USERPROFILE or .>\.dsh\logs` on Windows,
/// `<HOME or .>/dsh-collab/logs` on macOS, and elsewhere
/// `<HOME>/dsh-collab/logs`, or `/tmp` without a home.
pub open spec fn default_log_dir_spec(
    platform: Platform,
    user_profile: Option<Seq<char>>,
    home: Option<Seq<char>>,
) -> Seq<char> {
    match platform {
        Platform::Windows => or_dot(user_profile) + "\\.dsh\\logs"@,
        Platform::MacOs => or_dot(home) + "/dsh-collab/logs"@,
        Platform::Linux => match home {
            Some(h) => h + "/dsh-collab/logs"@,
            None => "/tmp"@,
        },
    }
}

/// The given directory, or `.` when there is none.
pub open spec fn or_dot(d: Option<Seq<char>>) -> Seq<char> {
    match d {
        Some(p) => p,
        None => "."@,
    }
}

/// The view of an optional string.
pub open spec fn opt_view(s: Option<String>) -> Option<Seq<char>> {
    match s {
        Some(t) => Some(t@),
        None => None,
    }
}

/// The log directory: the configured one (`DSH_LOG_DIR`) when given,
/// otherwise the platform default.
pub fn log_dir(
    configured: Option<String>,
    platform: Platform,
    user_profile: Option<String>,
    home: Option<String>,
) -> (r: String)
    ensures
        r@ == match configured {
            Some(d) => d@,
            None => default_log_dir_spec(platform, opt_view(user_profile), opt_view(home)),
        },
{
    if let Some(d) = configured {
        return d;
    }
    let mut v: Vec<char> = Vec::new();
    match platform {
        Platform::Windows => {
            match &user_profile {
                Some(p) => push_text(&mut v, p.as_str()),
                None => push_text(&mut v, "."),
            }
            push_text(&mut v, "\\.dsh\\logs");
        },
        Platform::MacOs => {
            match &home {
                Some(h) => push_text(&mut v, h.as_str()),
                None => push_text(&mut v, "."),
            }
            push_text(&mut v, "/dsh-collab/logs");
        },
        Platform::Linux => {
            match &home {
                Some(h) => {
                    push_text(&mut v, h.as_str());
                    push_text(&mut v, "/dsh-collab/logs");
                },
                None => push_text(&mut v, "/tmp"),
            }
        },
    }
    string_of(&v)
}

/// The log file: `<dir>/node-bridge.log`.
pub fn log_path(dir: &str) -> (r: String)
    ensures
        r@ == dir@ + "/"@ + PROJECT@ + ".log"@,
{
    let mut v: Vec<char> = Vec::new();
    push_text(&mut v, dir);
    push_text(&mut v, "/");
    push_text(&mut v, PROJECT);
    push_text(&mut v, ".log");
    string_of(&v)
}

// ---------------------------------------------------------------------------
// Rotation
// ---------------------------------------------------------------------------

/// The file is rotated before a write when it is larger than 5 MiB.
pub fn needs_rotation(size: u64) -> (r: bool)
    ensures
        r == (size > ROTATE_BYTES),
{
    size > ROTATE_BYTES
}

/// `<base>.<n>`.
pub open spec fn numbered(base: Seq<char>, n: nat) -> Seq<char> {
    base + "."@ + crate::text::decimal(n)
}

/// The renames of one rotation, in order: each kept file moves one number
/// up (the oldest first, so nothing is overwritten before it moved), then
/// the current file becomes `<base>.1`. A rename whose source does not exist
/// is skipped. What was `<base>.3` is replaced.
pub open spec fn rotation_spec(base: Seq<char>) -> Seq<(Seq<char>, Seq<char>)> {
    seq![
        (numbered(base, 2), numbered(base, 3)),
        (numbered(base, 1), numbered(base, 2)),
        (base, numbered(base, 1)),
    ]
}

/// One rotation never overwrites a file before moving it: no rename's
/// target is the source of a later rename, and the targets differ from one
/// another, so each kept file moves exactly one number up.
pub proof fn lemma_rotation_moves_oldest_first(base: Seq<char>)
    ensures
        forall|i: int, j: int|
            0 <= i < j < 3 ==> (#[trigger] rotation_spec(base)[i]).1 != (#[trigger] rotation_spec(
                base,
            )[j]).0 && rotation_spec(base)[i].1 != rotation_spec(base)[j].1,
{
    reveal_strlit(".");
    let r = rotation_spec(base);
    let d1 = crate::text::decimal(1);
    let d2 = crate::text::decimal(2);
    let d3 = crate::text::decimal(3);
    assert(d1 == seq![crate::text::digit_char(1)]);
    assert(d2 == seq![crate::text::digit_char(2)]);
    assert(d3 == seq![crate::text::digit_char(3)]);
    assert(crate::text::digit_char(1) != crate::text::digit_char(2)) by {
        vstd::utf8::char_u32_cast(crate::text::digit_char(1), 49);
        vstd::utf8::char_u32_cast(crate::text::digit_char(2), 50);
    }
    assert(crate::text::digit_char(1) != crate::text::digit_char(3)) by {
        vstd::utf8::char_u32_cast(crate::text::digit_char(1), 49);
        vstd::utf8::char_u32_cast(crate::text::digit_char(3), 51);
    }
    assert(crate::text::digit_char(2) != crate::text::digit_char(3)) by {
        vstd::utf8::char_u32_cast(crate::text::digit_char(2), 50);
        vstd::utf8::char_u32_cast(crate::text::digit_char(3), 51);
    }
    let n1 = numbered(base, 1);
    let n2 = numbered(base, 2);
    let n3 = numbered(base, 3);
    assert(n1.len() == base.len() + 2 && n2.len() == base.len() + 2 && n3.len() == base.len() + 2);
    assert(n1.last() == crate::text::digit_char(1));
    assert(n2.last() == crate::text::digit_char(2));
    assert(n3.last() == crate::text::digit_char(3));
    assert(n1 != n2 && n1 != n3 && n2 != n3);
    assert(n1 != base && n2 != base && n3 != base);
}

/// `<base>.<n>` as a string.
fn numbered_path(base: &str, n: u64) -> (r: String)
    ensures
        r@ == numbered(base@, n as nat),
{
    let mut v: Vec<char> = Vec::new();
    push_text(&mut v, base);
    push_text(&mut v, ".");
    crate::text::push_decimal(&mut v, n);
    string_of(&v)
}

/// The renames of one rotation of the log file `base`.
pub fn rotation_moves(base: &str) -> (r: Vec<(String, String)>)
    ensures
        r@.len() == 3,
        forall|i: int|
            0 <= i < 3 ==> (#[trigger] r@[i]).0@ == rotation_spec(base@)[i].0 && r@[i].1@
                == rotation_spec(base@)[i].1,
{
    let mut r: Vec<(String, String)> = Vec::new();
    let mut k: u64 = KEEP_ROTATED - 1;
    while k >= 1
        invariant
            0 <= k <= 2,
            r@.len() == 2 - k,
            forall|i: int|
                0 <= i < r@.len() ==> (#[trigger] r@[i]).0@ == numbered(base@, (2 - i) as nat)
                    && r@[i].1@ == numbered(base@, (3 - i) as nat),
        decreases k,
    {
        let src = numbered_path(base, k);
        let dst = numbered_path(base, k + 1);
        r.push((src, dst));
        k = k - 1;
    }
    let mut cur = String::new();
    crate::text::push_str(&mut cur, base);
    let first = numbered_path(base, 1);
    r.push((cur, first));
    r
}

} // verus!
