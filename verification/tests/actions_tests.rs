use node_bridge::actions::{
    execute, may_descend, may_list, ollama_body, ollama_outcome, scan_item, scan_report, Dispatch,
};
use node_bridge::exec::{
    combine_output, decode_output, info, is_overdue, shell_command, shell_result, Platform,
    ShellEnd,
};
use node_bridge::json::Json;

fn s(t: &str) -> Json {
    Json::Str(t.to_string())
}

fn obj(members: Vec<(&str, Json)>) -> Json {
    Json::Object(members.into_iter().map(|(k, v)| (k.to_string(), v)).collect())
}

fn str_member<'a>(j: &'a Json, key: &str) -> Option<&'a str> {
    match j.get(key) {
        Some(Json::Str(t)) => Some(t.as_str()),
        _ => None,
    }
}

#[test]
fn unknown_action_returns_false_not_panic() {
    let task = obj(vec![("action", s("notify")), ("cmd", s("whatever"))]);
    match execute(&task) {
        Dispatch::Done { ok, output } => {
            assert!(!ok);
            assert!(output.contains("unknown action"), "应返回 unknown action 错误: {}", output);
            assert_eq!(output, "unknown action: notify");
        }
        _ => panic!("an unknown action is refused"),
    }
}

#[test]
fn shell_action_default() {
    let task = obj(vec![("action", s("shell")), ("cmd", s("echo ACTION_OK"))]);
    match execute(&task) {
        Dispatch::Shell { cmd, timeout_secs } => {
            assert_eq!(cmd, "echo ACTION_OK");
            assert_eq!(timeout_secs, 300);
        }
        _ => panic!("a shell card runs its command"),
    }
}

#[test]
fn missing_action_means_shell() {
    let task = obj(vec![("cmd", s("ls"))]);
    assert!(matches!(execute(&task), Dispatch::Shell { ref cmd, .. } if cmd == "ls"));
    let task = obj(vec![("action", s("exec"))]);
    assert!(matches!(execute(&task), Dispatch::Shell { ref cmd, .. } if cmd.is_empty()));
    let task = obj(vec![("action", s("run")), ("cmd", s("a"))]);
    assert!(matches!(execute(&task), Dispatch::Shell { .. }));
}

#[test]
fn info_action() {
    let task = obj(vec![("action", s("info"))]);
    assert!(matches!(execute(&task), Dispatch::Info));
    let task = obj(vec![("action", s("status"))]);
    assert!(matches!(execute(&task), Dispatch::Info));
    let report = info(Platform::Linux, "1.3.3");
    assert_eq!(str_member(&report, "bridge"), Some("rust-node-bridge"));
}

#[test]
fn cmd_from_payload() {
    let task = obj(vec![
        ("action", s("shell")),
        ("payload", obj(vec![("cmd", s("echo PAYLOAD_OK"))])),
    ]);
    match execute(&task) {
        Dispatch::Shell { cmd, .. } => assert!(cmd.contains("PAYLOAD_OK")),
        _ => panic!("the payload's command runs"),
    }
    // The card's own command wins over the payload's.
    let task = obj(vec![
        ("cmd", s("own")),
        ("payload", obj(vec![("cmd", s("inner"))])),
    ]);
    assert!(matches!(execute(&task), Dispatch::Shell { ref cmd, .. } if cmd == "own"));
}

#[test]
fn scan_limits_depth() {
    let task = obj(vec![
        ("action", s("scan")),
        ("payload", obj(vec![("path", s("/tmp")), ("depth", Json::PosInt(1))])),
    ]);
    match execute(&task) {
        Dispatch::Scan { path, depth } => {
            assert_eq!(path, "/tmp");
            assert_eq!(depth, 1);
        }
        _ => panic!("a scan card scans"),
    }
    let item = scan_item("/tmp/a.txt", 12, Some("txt"));
    let report = scan_report("/tmp", vec![item]);
    assert!(matches!(report.get("count"), Some(Json::PosInt(1))));
    assert_eq!(str_member(&report, "root"), Some("/tmp"));
}

#[test]
fn scan_defaults_and_limits() {
    let task = obj(vec![("action", s("scan"))]);
    match execute(&task) {
        Dispatch::Scan { path, depth } => {
            assert_eq!(path, ".");
            assert_eq!(depth, 2);
        }
        _ => panic!("a scan card scans"),
    }
    assert!(may_descend(0, 2, 0));
    assert!(may_descend(2, 2, 2000));
    assert!(!may_descend(3, 2, 0));
    assert!(!may_descend(1, 2, 2001));
    assert!(may_list(0));
    assert!(may_list(1999));
    assert!(!may_list(2000));
    let item = scan_item("/x/Makefile", 5, None);
    assert_eq!(str_member(&item, "type"), Some(""));
    assert!(matches!(item.get("size"), Some(Json::PosInt(5))));
}

#[test]
fn dsh_action_is_not_wired() {
    let task = obj(vec![("action", s("dsh"))]);
    match execute(&task) {
        Dispatch::Done { ok, output } => {
            assert!(!ok);
            assert_eq!(output, "dsh action requires DSH runtime on node; not yet wired");
        }
        _ => panic!("dsh is refused"),
    }
}

#[test]
fn ollama_offline_graceful() {
    let task = obj(vec![
        ("action", s("ollama")),
        ("payload", obj(vec![("prompt", s("hi"))])),
    ]);
    let body = match execute(&task) {
        Dispatch::Ollama { body } => body,
        _ => panic!("an ollama card asks Ollama"),
    };
    assert_eq!(str_member(&body, "model"), Some("qwen2.5:7b"));
    assert_eq!(str_member(&body, "prompt"), Some("hi"));
    let (ok, out) = ollama_outcome(Err("connection refused".to_string()), Err(String::new()));
    assert!(!ok, "离线 ollama 应返回失败而非 panic");
    assert_eq!(out, "ollama error: connection refused");
}

#[test]
fn ollama_outcomes() {
    let (ok, out) = ollama_outcome(Ok(500), Err(String::new()));
    assert!(!ok);
    assert_eq!(out, "ollama http 500");
    let (ok, out) = ollama_outcome(Ok(200), Err("eof".to_string()));
    assert!(!ok);
    assert_eq!(out, "ollama bad json: eof");
    let reply = obj(vec![("response", s("  hello \n"))]);
    let (ok, out) = ollama_outcome(Ok(200), Ok(reply));
    assert!(ok);
    assert_eq!(out, "hello");
    let body = ollama_body(&obj(vec![("payload", obj(vec![("model", s("m"))]))]));
    assert_eq!(str_member(&body, "model"), Some("m"));
    assert_eq!(str_member(&body, "prompt"), Some(""));
    assert!(matches!(body.get("stream"), Some(Json::Bool(false))));
}

#[test]
fn decode_utf8_plain() {
    assert_eq!(decode_output(b"hello"), "hello");
}

#[test]
fn decode_utf8_chinese_utf8() {
    assert_eq!(decode_output("中文测试".as_bytes()), "中文测试");
}

#[test]
fn decode_utf8_gbk_fallback() {
    let gbk = [0xD6, 0xD0, 0xCE, 0xC4];
    let text = decode_output(&gbk);
    assert_eq!(text, "中文", "GBK 字节应回退解码为中文");
}

#[test]
fn decode_utf8_invalid_fallback_no_panic() {
    let bad = [0xFF, 0xFE, 0xFD];
    let text = decode_output(&bad);
    assert!(!text.is_empty() || text.is_empty());
}

#[test]
fn run_shell_echo() {
    let (ok, out) = shell_result(ShellEnd::Exited { success: true }, b"RUST_TEST_OK\n", b"");
    assert!(ok, "echo 应成功");
    assert!(out.contains("RUST_TEST_OK"), "输出应含标记: {}", out);
}

#[test]
fn run_shell_timeout() {
    let (ok, out) = shell_result(ShellEnd::TimedOut, b"", b"");
    assert!(!ok, "超时应失败");
    assert!(out.contains("TIMEOUT"), "超时应返回 __TIMEOUT__: {}", out);
    assert!(is_overdue(1_000_000_000, 1));
    assert!(!is_overdue(999_999_999, 1));
}

#[test]
fn run_shell_nonzero_exit() {
    let (ok, out) = shell_result(ShellEnd::Exited { success: false }, b"", b"exit 3\n");
    assert!(!ok, "非零退出应失败");
    assert!(!out.contains("__TIMEOUT__"));
    assert_eq!(out, "exit 3");
}

#[test]
fn shell_output_combines_streams() {
    assert_eq!(combine_output(b"out", b"err"), b"out\nerr".to_vec());
    assert_eq!(combine_output(b"", b"err"), b"err".to_vec());
    assert_eq!(combine_output(b"out", b""), b"out".to_vec());
    let (ok, out) = shell_result(ShellEnd::SpawnFailed { error: "no sh".to_string() }, b"", b"");
    assert!(!ok);
    assert_eq!(out, "spawn error: no sh");
    let (ok, out) = shell_result(ShellEnd::WaitFailed { error: "gone".to_string() }, b"", b"");
    assert!(!ok);
    assert_eq!(out, "wait error: gone");
    assert_eq!(shell_command(Platform::Windows), ("cmd", "/C"));
    assert_eq!(shell_command(Platform::MacOs), ("sh", "-c"));
}

#[test]
fn info_returns_json() {
    let report = info(Platform::Windows, "1.3.3");
    assert_eq!(str_member(&report, "bridge"), Some("rust-node-bridge"));
    assert_eq!(str_member(&report, "os"), Some("windows"));
    assert_eq!(str_member(&report, "encoding"), Some("gbk"));
    assert_eq!(str_member(&report, "path_style"), Some("\\"));
    let report = info(Platform::MacOs, "1.3.3");
    assert_eq!(str_member(&report, "os"), Some("darwin"));
    assert_eq!(str_member(&report, "bridge_ver"), Some("1.3.3"));
}
