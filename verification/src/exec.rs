//! Running shell commands: which shell, when to give up, and how the
//! command's output is turned into the reported text.

use vstd::prelude::*;
use vstd::utf8::{decode_utf8, valid_utf8};
use crate::json::{push_member, text, Json};
use crate::text::{push_text, string_of, trim_spec};

verus! {

broadcast use vstd::string::group_string_axioms;

/// The operating systems the bridge is built for.
#[derive(Clone, Copy, PartialEq, Eq, Structural)]
pub enum Platform {
    Windows,
    MacOs,
    Linux,
}

/// The shell and its command flag: `cmd /C` on Windows, `sh -c` elsewhere.
pub fn shell_command(platform: Platform) -> (r: (&'static str, &'static str))
    ensures
        platform == Platform::Windows ==> r.0@ == "cmd"@ && r.1@ == "/C"@,
        platform != Platform::Windows ==> r.0@ == "sh"@ && r.1@ == "-c"@,
{
    proof {
        reveal_strlit("cmd");
        reveal_strlit("/C");
        reveal_strlit("sh");
        reveal_strlit("-c");
    }
    match platform {
        Platform::Windows => ("cmd", "/C"),
        _ => ("sh", "-c"),
    }
}

/// A command still running after `elapsed_nanos` is stopped once its
/// `timeout_secs` have passed.
pub fn is_overdue(elapsed_nanos: u128, timeout_secs: u64) -> (r: bool)
    ensures
        r == (elapsed_nanos >= timeout_secs as int * 1_000_000_000),
{
    elapsed_nanos >= timeout_secs as u128 * 1_000_000_000
}

/// Standard output, then a line feed and standard error when both are
/// non-empty, or just whichever is present.
pub open spec fn combined_spec(out: Seq<u8>, err: Seq<u8>) -> Seq<u8> {
    if err.len() == 0 {
        out
    } else if out.len() == 0 {
        err
    } else {
        out + seq![10u8] + err
    }
}

/// The bytes a command reports: its standard output, then its standard
/// error after a line feed.
pub fn combine_output(out: &[u8], err: &[u8]) -> (r: Vec<u8>)
    ensures
        r@ == combined_spec(out@, err@),
{
    let mut all: Vec<u8> = Vec::new();
    let mut i: usize = 0;
    while i < out.len()
        invariant
            i <= out@.len(),
            all@ == out@.take(i as int),
        decreases out.len() - i,
    {
        all.push(out[i]);
        i = i + 1;
        proof {
            assert(all@ =~= out@.take(i as int));
        }
    }
    proof {
        assert(out@.take(out@.len() as int) =~= out@);
    }
    if err.len() > 0 {
        if all.len() > 0 {
            all.push(10u8);
        }
        let ghost base = all@;
        let mut j: usize = 0;
        while j < err.len()
            invariant
                j <= err@.len(),
                all@ == base + err@.take(j as int),
            decreases err.len() - j,
        {
            all.push(err[j]);
            j = j + 1;
            proof {
                assert(all@ =~= base + err@.take(j as int));
            }
        }
        proof {
            assert(err@.take(err@.len() as int) =~= err@);
            if out@.len() == 0 {
                assert(all@ =~= err@);
            } else {
                assert(all@ =~= out@ + seq![10u8] + err@);
            }
        }
    }
    all
}

/// The text of `bytes` decoded as GBK by `encoding_rs` (after its BOM
/// sniffing), with malformed sequences replaced.
pub uninterp spec fn gbk_text(bytes: Seq<u8>) -> Seq<char>;

/// `encoding_rs::GBK.decode`, made owned. Its result is named by
/// `gbk_text`; the decoding tables are not restated. The crate panics when
/// the size of its output buffer overflows `usize`; inputs of an eighth of
/// the address space or more are left out.
#[verifier::external_body]
fn gbk_decode(bytes: &[u8]) -> (s: String)
    requires
        bytes@.len() <= usize::MAX / 8,
    ensures
        s@ == gbk_text(bytes@),
{
    let (cow, _, _) = encoding_rs::GBK.decode(bytes);
    cow.into_owned()
}

/// `std::str::from_utf8`, made owned: the decoded text exactly when the
/// bytes are valid UTF-8.
#[verifier::external_body]
fn utf8_decode(bytes: &[u8]) -> (r: Option<String>)
    ensures
        r is Some <==> valid_utf8(bytes@),
        r matches Some(s) ==> s@ == decode_utf8(bytes@),
{
    match std::str::from_utf8(bytes) {
        Ok(s) => Some(s.to_string()),
        Err(_) => None,
    }
}

/// Text of command output: UTF-8 when it is valid UTF-8, otherwise GBK (the
/// code page of Chinese Windows consoles).
pub open spec fn decoded_spec(bytes: Seq<u8>) -> Seq<char> {
    if valid_utf8(bytes) {
        decode_utf8(bytes)
    } else {
        gbk_text(bytes)
    }
}

/// Decodes command output.
pub fn decode_output(bytes: &[u8]) -> (s: String)
    requires
        bytes@.len() <= usize::MAX / 8,
    ensures
        s@ == decoded_spec(bytes@),
{
    match utf8_decode(bytes) {
        Some(s) => s,
        None => gbk_decode(bytes),
    }
}

/// How a command run ended.
pub enum ShellEnd {
    /// The shell could not be started.
    SpawnFailed { error: String },
    /// Waiting for the command failed.
    WaitFailed { error: String },
    /// The command ran past its time and was stopped.
    TimedOut,
    /// The command exited, successfully or not.
    Exited { success: bool },
}

/// What a command run reports: failures name their cause; a stopped
/// command reports `__TIMEOUT__`; a finished one reports whether it
/// succeeded and its decoded, trimmed output.
pub open spec fn shell_result_spec(end: ShellEnd, out: Seq<u8>, err: Seq<u8>) -> (bool, Seq<char>) {
    match end {
        ShellEnd::SpawnFailed { error } => (false, "spawn error: "@ + error@),
        ShellEnd::WaitFailed { error } => (false, "wait error: "@ + error@),
        ShellEnd::TimedOut => (false, "__TIMEOUT__"@),
        ShellEnd::Exited { success } => (success, trim_spec(decoded_spec(combined_spec(out, err)))),
    }
}

/// A command that exited reports both of its streams whatever its exit
/// status: the success flag is the exit status, and the text is the same
/// for a failed and a successful run. With output on both streams the text
/// is the standard output, a line feed and the standard error, decoded and
/// trimmed; with one stream empty, the other alone.
pub proof fn lemma_exit_reports_both_streams(success: bool, out: Seq<u8>, err: Seq<u8>)
    ensures
        shell_result_spec(ShellEnd::Exited { success }, out, err).0 == success,
        shell_result_spec(ShellEnd::Exited { success: true }, out, err).1 == shell_result_spec(
            ShellEnd::Exited { success: false },
            out,
            err,
        ).1,
        out.len() > 0 && err.len() > 0 ==> shell_result_spec(ShellEnd::Exited { success }, out, err).1
            == trim_spec(decoded_spec(out + seq![10u8] + err)),
        err.len() == 0 ==> shell_result_spec(ShellEnd::Exited { success }, out, err).1 == trim_spec(
            decoded_spec(out),
        ),
        out.len() == 0 ==> shell_result_spec(ShellEnd::Exited { success }, out, err).1 == trim_spec(
            decoded_spec(err),
        ),
{
}

/// A stopped command fails with `__TIMEOUT__`, and a command that could not
/// be started or waited for fails naming the cause.
pub proof fn lemma_unfinished_runs_fail(error: String, out: Seq<u8>, err: Seq<u8>)
    ensures
        shell_result_spec(ShellEnd::TimedOut, out, err) == (false, "__TIMEOUT__"@),
        shell_result_spec(ShellEnd::SpawnFailed { error }, out, err) == (false, "spawn error: "@
            + error@),
        shell_result_spec(ShellEnd::WaitFailed { error }, out, err) == (false, "wait error: "@
            + error@),
{
}

/// The report of a command run.
pub fn shell_result(end: ShellEnd, out: &[u8], err: &[u8]) -> (r: (bool, String))
    requires
        out@.len() + err@.len() + 1 <= usize::MAX / 8,
    ensures
        r.0 == shell_result_spec(end, out@, err@).0,
        r.1@ == shell_result_spec(end, out@, err@).1,
{
    match end {
        ShellEnd::SpawnFailed { error } => {
            let mut v: Vec<char> = Vec::new();
            push_text(&mut v, "spawn error: ");
            push_text(&mut v, error.as_str());
            (false, string_of(&v))
        },
        ShellEnd::WaitFailed { error } => {
            let mut v: Vec<char> = Vec::new();
            push_text(&mut v, "wait error: ");
            push_text(&mut v, error.as_str());
            (false, string_of(&v))
        },
        ShellEnd::TimedOut => (false, crate::text::owned("__TIMEOUT__")),
        ShellEnd::Exited { success } => {
            let all = combine_output(out, err);
            let s = decode_output(all.as_slice());
            (success, crate::text::trim_str(s.as_str()))
        },
    }
}

/// The name the bridge reports for a platform.
pub open spec fn os_name_spec(p: Platform) -> Seq<char> {
    match p {
        Platform::Windows => "windows"@,
        Platform::MacOs => "darwin"@,
        Platform::Linux => "linux"@,
    }
}

/// The platform's name: `windows`, `darwin` or `linux`.
pub fn os_name(p: Platform) -> (r: &'static str)
    ensures
        r@ == os_name_spec(p),
{
    proof {
        reveal_strlit("windows");
        reveal_strlit("darwin");
        reveal_strlit("linux");
    }
    match p {
        Platform::Windows => "windows",
        Platform::MacOs => "darwin",
        Platform::Linux => "linux",
    }
}

/// The node's environment report: its OS, the console encoding (`gbk` on
/// Windows, `utf-8` elsewhere), the bridge's name and version, and the
/// path separator.
pub fn info(platform: Platform, version: &str) -> (r: Json)
    ensures
        crate::json::text_object_is(
            r,
            seq!["os"@, "encoding"@, "bridge"@, "bridge_ver"@, "path_style"@],
            seq![
                os_name_spec(platform),
                if platform == Platform::Windows {
                    "gbk"@
                } else {
                    "utf-8"@
                },
                "rust-node-bridge"@,
                version@,
                if platform == Platform::Windows {
                    "\\"@
                } else {
                    "/"@
                },
            ],
        ),
{
    let windows = platform == Platform::Windows;
    let mut f: Vec<(String, Json)> = Vec::new();
    push_member(&mut f, "os", text(os_name(platform)));
    push_member(&mut f, "encoding", text(if windows { "gbk" } else { "utf-8" }));
    push_member(&mut f, "bridge", text("rust-node-bridge"));
    push_member(&mut f, "bridge_ver", text(version));
    push_member(&mut f, "path_style", text(if windows { "\\" } else { "/" }));
    proof {
        let keys = seq!["os"@, "encoding"@, "bridge"@, "bridge_ver"@, "path_style"@];
        assert forall|i: int| 0 <= i < f@.len() implies (#[trigger] f@[i]).0@ == keys[i] by {
            assert(f@.take(i + 1)[i] == f@[i]);
        }
        assert forall|i: int| 0 <= i < f@.len() implies #[trigger] f@[i] == f@.take(i + 1)[i] by {
        }
    }
    Json::Object(f)
}

} // verus!
