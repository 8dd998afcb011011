use node_bridge::clock::{civil_from_seconds, now};
use node_bridge::config::{parse_args, parse_subs, DEFAULT_BB};
use node_bridge::exec::Platform;
use node_bridge::json::Json;
use node_bridge::listing::{is_relevant_exec, select_notes, select_tasks, sorted_members, take_member};
use node_bridge::logger::{
    escape_message, log, log_dir, log_line, log_path, needs_rotation, rotation_moves, should_log,
    LEVEL_DEBUG, LEVEL_INFO, LEVEL_WARN,
};
use node_bridge::node::{
    attach_signature, clear_path, heartbeat_body, heartbeat_path, inbox_dir, inbox_names,
    new_identity, node_path, notes_query_path, outbox_delivered, outbox_dir, outbox_route,
    outbox_topic, outbox_value, register_body, registration, result_path, skip_inbox_write,
    stored_device_id, task_id_of, task_result, tasks_query_path,
};
use node_bridge::text::topic_from_file_name;

fn s(t: &str) -> Json {
    Json::Str(t.to_string())
}

fn obj(members: Vec<(&str, Json)>) -> Json {
    Json::Object(members.into_iter().map(|(k, v)| (k.to_string(), v)).collect())
}

fn str_member<'a>(j: &'a Json, key: &str) -> Option<&'a str> {
    match j.get(key) {
        Some(Json::Str(t)) => Some(t.as_str()),
        _ => None,
    }
}

fn keys(j: &Json) -> Vec<String> {
    match j {
        Json::Object(f) => f.iter().map(|(k, _)| k.clone()).collect(),
        _ => Vec::new(),
    }
}

fn args(list: &[&str]) -> Vec<String> {
    list.iter().map(|a| a.to_string()).collect()
}

#[test]
fn outbox_topic_from_filename() {
    assert_eq!(topic_from_file_name("report-test"), "report-test");
    assert_eq!(topic_from_file_name("plain"), "plain");
    assert_eq!(topic_from_file_name("report-test.json"), "report-test");
}

#[test]
fn outbox_files_and_topics() {
    assert_eq!(outbox_topic("hello.json"), Some("hello".to_string()));
    assert_eq!(outbox_topic("a.json.json"), Some("a".to_string()));
    assert_eq!(outbox_topic("hello.txt"), None);
    assert_eq!(outbox_topic(".json"), None);
    assert_eq!(outbox_topic(".x.json"), None);
    assert!(outbox_delivered(200));
    assert!(!outbox_delivered(500));
}

#[test]
fn default_settings() {
    let c = parse_args(&args(&["node-bridge"]));
    assert_eq!(c.node, "node");
    assert_eq!(c.bb.host, "100.120.203.20");
    assert_eq!(c.bb.port, 8792);
    assert_eq!(c.hb_secs, 60);
    assert_eq!(c.queue_secs, 2);
    assert_eq!(c.notes_secs, 5);
    assert!(!c.no_llm);
    assert!(c.identity_path.is_none());
    assert_eq!(c.token, "");
    assert!(c.collab_subs.is_none());
    assert_eq!(DEFAULT_BB, "http://100.120.203.20:8792");
}

#[test]
fn flags_set_settings() {
    let c = parse_args(&args(&[
        "node-bridge", "--node-id", "mac-mini", "--blackboard", "http://127.0.0.1:8792", "--hb",
        "30", "--queue", "x", "--notes", "7", "--no-llm", "--identity", "/id.json", "--token",
        "t0k", "--collab-subs", " ops , ,dev ", "--unknown",
    ]));
    assert_eq!(c.node, "mac-mini");
    assert_eq!(c.bb.host, "127.0.0.1");
    assert_eq!(c.bb.token, "t0k");
    assert_eq!(c.hb_secs, 30);
    assert_eq!(c.queue_secs, 2);
    assert_eq!(c.notes_secs, 7);
    assert!(c.no_llm);
    assert_eq!(c.identity_path, Some("/id.json".to_string()));
    assert_eq!(c.token, "t0k");
    assert_eq!(c.collab_subs, Some(vec!["ops".to_string(), "dev".to_string()]));
    // A value flag at the end is ignored; a later flag wins.
    let c = parse_args(&args(&["nb", "--node-id", "a", "--node-id", "b", "--hb"]));
    assert_eq!(c.node, "b");
    assert_eq!(c.hb_secs, 60);
    assert_eq!(parse_subs(""), Vec::<String>::new());
}

#[test]
fn paths_and_timestamps() {
    assert_eq!(now(Some(0), 0), "1970-01-01T00:00:00");
    assert_eq!(now(None, 0), "1970-01-01T00:00:00");
    assert_eq!(now(Some(1787668245), 0), "2026-08-25T14:30:45");
    assert_eq!(now(Some(1787668245), 28800), "2026-08-25T22:30:45");
    assert_eq!(now(Some(951782400), 0), "2000-02-29T00:00:00");
    assert_eq!(now(Some(4107542399), 0), "2100-02-28T23:59:59");
    assert_eq!(now(Some(30), -3600), "1969-12-31T23:00:30");
    assert_eq!(now(Some(1787668245), 0).len(), 19);
    assert_eq!(civil_from_seconds(0), (1, 1, 1, 0, 0, 0));
    let (y, _, _, _, _, _) = civil_from_seconds(u64::MAX as u128 + 62135596800);
    assert!(y > 500_000_000_000);
    assert_eq!(heartbeat_path("i9"), "/nodes/i9/heartbeat");
    assert_eq!(node_path("i9"), "/nodes/i9");
    assert_eq!(tasks_query_path("i9"), "/tasks?node=i9");
    assert_eq!(result_path("i9"), "/tasks/i9/result");
    assert_eq!(clear_path("tasks/i9/queue/1"), "/tasks/i9/queue/1");
    assert_eq!(notes_query_path("i9"), "/notes/i9/");
    assert_eq!(
        inbox_dir(Platform::Linux, None, Some("/home/u".to_string())),
        Some("/home/u/.dsh/inbox".to_string())
    );
    assert_eq!(inbox_dir(Platform::Windows, None, Some("/home/u".to_string())), None);
    assert_eq!(
        inbox_dir(Platform::Windows, Some("C:\\Users\\u".to_string()), None),
        Some("C:\\Users\\u\\.dsh\\inbox".to_string())
    );
    assert_eq!(
        outbox_dir(Platform::MacOs, None, Some("/Users/u".to_string()), None),
        "/Users/u/.dsh/outbox"
    );
    assert_eq!(outbox_dir(Platform::Linux, None, None, Some("/srv".to_string())), "/srv/outbox");
    assert_eq!(outbox_dir(Platform::Linux, None, None, None), "./outbox");
}

#[test]
fn heartbeat_and_results() {
    let hb = heartbeat_body("123", "1.3.3");
    assert_eq!(keys(&hb), vec!["ts", "health", "bridge", "ver"]);
    assert_eq!(str_member(&hb, "health"), Some("ok"));
    assert_eq!(str_member(&hb, "bridge"), Some("rust"));
    assert_eq!(str_member(&hb, "ver"), Some("1.3.3"));
    assert_eq!(task_id_of(&obj(vec![("task_id", s("t-1"))])), "t-1");
    assert_eq!(task_id_of(&obj(vec![("task_id", Json::PosInt(3))])), "unknown");
    let r = task_result("t-1", true, "out", "i9", "9");
    assert_eq!(keys(&r), vec!["task_id", "ok", "output", "node", "ts"]);
    assert!(matches!(r.get("ok"), Some(Json::Bool(true))));
    assert_eq!(str_member(&r, "output"), Some("out"));
}

#[test]
fn registration_and_identity() {
    let r = registration(Platform::MacOs, "9", "dev-1");
    assert_eq!(str_member(&r, "status"), Some("online"));
    assert_eq!(str_member(&r, "os"), Some("darwin"));
    assert_eq!(str_member(&r, "device_id"), Some("dev-1"));
    match r.get("capabilities") {
        Some(Json::Array(c)) => assert_eq!(c.len(), 6),
        _ => panic!("capabilities are listed"),
    }
    let r = registration(Platform::Linux, "9", "");
    assert!(r.get("device_id").is_none());
    assert_eq!(str_member(&r, "os"), Some("linux"));
    let id = obj(vec![("device_id", s("d"))]);
    assert_eq!(stored_device_id(Some(&id), "tok"), "d");
    assert_eq!(stored_device_id(Some(&obj(vec![])), "tok"), "tok");
    assert_eq!(stored_device_id(Some(&obj(vec![])), ""), "");
    assert_eq!(stored_device_id(None, "tok"), "");
    assert_eq!(str_member(&register_body("i9"), "name"), Some("i9"));
    let (d, ident) = new_identity(&obj(vec![("device_id", s("d9")), ("token", s("k"))]), "i9", "5");
    assert_eq!(d, "d9");
    assert_eq!(keys(&ident), vec!["device_id", "name", "token", "registered"]);
    assert_eq!(str_member(&ident, "token"), Some("k"));
    let (d, ident) = new_identity(&obj(vec![]), "i9", "5");
    assert_eq!(d, "");
    assert_eq!(str_member(&ident, "token"), Some(""));
}

#[test]
fn outbox_messages() {
    let v = outbox_value("not json", None);
    assert_eq!(str_member(&v, "content"), Some("not json"));
    let v = outbox_value("{}", Some(obj(vec![("to", s("i9")), ("topic", s("hello"))])));
    let (topic, path) = outbox_route(&v, "mbp", "file-topic");
    assert_eq!(topic, "hello");
    assert_eq!(path, "/notes/i9/hello");
    let (topic, path) = outbox_route(&obj(vec![]), "mbp", "file-topic");
    assert_eq!(topic, "file-topic");
    assert_eq!(path, "/notes/mbp/file-topic");
    let signed = attach_signature(obj(vec![("content", s("x")), ("signature", s("old"))]), "sig", "pub");
    assert_eq!(str_member(&signed, "signature"), Some("sig"));
    assert_eq!(str_member(&signed, "signer_pub"), Some("pub"));
    assert_eq!(str_member(&signed, "content"), Some("x"));
    assert_eq!(keys(&signed), vec!["content", "signature", "signer_pub"]);
    assert!(matches!(attach_signature(Json::PosInt(1), "s", "p"), Json::PosInt(1)));
}

#[test]
fn task_cards_in_key_order() {
    let reply = obj(vec![(
        "list",
        obj(vec![
            ("tasks/i9/queue/3", obj(vec![("value", obj(vec![("task_id", s("c"))]))])),
            ("tasks/i9/result", obj(vec![("value", obj(vec![]))])),
            ("tasks/i9/queue/1", obj(vec![("value", obj(vec![("task_id", s("a"))]))])),
            ("tasks/i9/cmd", obj(vec![])),
            ("tasks/i9/queue/1", obj(vec![("value", obj(vec![("task_id", s("dup"))]))])),
        ]),
    )]);
    let tasks = select_tasks(reply);
    let ks: Vec<&str> = tasks.iter().map(|(k, _)| k.as_str()).collect();
    assert_eq!(ks, vec!["tasks/i9/cmd", "tasks/i9/queue/1", "tasks/i9/queue/3"]);
    assert!(matches!(&tasks[0].1, Json::Object(f) if f.is_empty()));
    assert_eq!(str_member(&tasks[1].1, "task_id"), Some("a"));
    assert_eq!(str_member(&tasks[2].1, "task_id"), Some("c"));
    assert!(select_tasks(obj(vec![])).is_empty());
    assert!(select_tasks(obj(vec![("list", Json::Array(vec![]))])).is_empty());
}

#[test]
fn members_sorted_and_taken() {
    let sorted = sorted_members(vec![
        ("b".to_string(), Json::PosInt(2)),
        ("a".to_string(), Json::PosInt(1)),
        ("ab".to_string(), Json::PosInt(3)),
        ("a".to_string(), Json::PosInt(9)),
    ]);
    let ks: Vec<&str> = sorted.iter().map(|(k, _)| k.as_str()).collect();
    assert_eq!(ks, vec!["a", "ab", "b"]);
    assert!(matches!(sorted[0].1, Json::PosInt(1)));
    assert!(matches!(take_member(obj(vec![("x", Json::Null)]), "x"), Some(Json::Null)));
    assert!(take_member(obj(vec![]), "x").is_none());
    assert!(take_member(Json::Null, "x").is_none());
}

#[test]
fn notes_relevance() {
    let none: Option<Vec<String>> = None;
    let plain = obj(vec![("value", obj(vec![("content", s("hi"))]))]);
    assert!(is_relevant_exec("i9", "notes/i9/coordinator-1", &plain, &none));
    assert!(!is_relevant_exec("i9", "notes/mbp/x", &plain, &none));
    assert!(!is_relevant_exec("i9", "notes/collab/announce", &plain, &none));
    assert!(is_relevant_exec("mac-mini", "notes/collab/announce", &plain, &none));
    let to = obj(vec![("value", obj(vec![("to", s("i9"))]))]);
    assert!(is_relevant_exec("i9", "notes/collab/x", &to, &none));
    let inner = obj(vec![("value", obj(vec![("value", obj(vec![("target", s("node-i9"))]))]))]);
    assert!(is_relevant_exec("i9", "notes/collab/x", &inner, &none));
    let mention = obj(vec![(
        "value",
        obj(vec![("value", obj(vec![("mentions", Json::Array(vec![s("@mbp"), s("@i9")]))]))]),
    )]);
    assert!(is_relevant_exec("i9", "notes/collab/x", &mention, &none));
    let subs = Some(vec!["ops-".to_string()]);
    assert!(is_relevant_exec("i9", "notes/collab/ops-deploy", &plain, &subs));
    assert!(!is_relevant_exec("i9", "notes/collab/dev-x", &plain, &subs));
}

#[test]
fn notes_selected_in_key_order() {
    let reply = obj(vec![(
        "list",
        obj(vec![
            ("notes/i9/b", obj(vec![("value", obj(vec![("content", s("2"))]))])),
            ("notes/i9/a", obj(vec![("value", obj(vec![("content", s("1"))]))])),
            ("notes/i9/novalue", obj(vec![])),
            ("notes/mbp/c", obj(vec![("value", obj(vec![]))])),
            ("notes/collab/d", obj(vec![("value", obj(vec![("to", s("i9"))]))])),
        ]),
    )]);
    let notes = select_notes(reply, "i9", &None);
    let ks: Vec<&str> = notes.iter().map(|(k, _)| k.as_str()).collect();
    assert_eq!(ks, vec!["notes/collab/d", "notes/i9/a", "notes/i9/b"]);
    assert_eq!(str_member(&notes[1].1, "content"), Some("1"));
}

#[test]
fn inbox_files() {
    assert_eq!(
        inbox_names("notes/i9/coordinator-1"),
        ("coordinator-1.json".to_string(), "coordinator-1.tmp".to_string())
    );
    assert_eq!(inbox_names("a b.c"), ("a_b_c.json".to_string(), "a_b_c.tmp".to_string()));
    let llm = obj(vec![("llm", Json::Bool(true))]);
    assert!(skip_inbox_write(&llm, true));
    assert!(!skip_inbox_write(&llm, false));
    assert!(!skip_inbox_write(&obj(vec![]), true));
}

#[test]
fn log_records() {
    assert!(should_log(LEVEL_INFO, LEVEL_INFO));
    assert!(!should_log(LEVEL_DEBUG, LEVEL_INFO));
    assert_eq!(escape_message("a\\b\"c\nd"), "a\\\\b\\\"c\\nd");
    assert_eq!(
        log_line("2026-08-30T10:00:00", "INFO", "main", "hi\n\"x\""),
        "{\"ts\":\"2026-08-30T10:00:00\",\"level\":\"INFO\",\"comp\":\"main\",\"msg\":\"hi\\n\\\"x\\\"\"}\n"
    );
    assert_eq!(log(LEVEL_WARN, LEVEL_INFO, "INFO", "main", "m", "t"), None);
    let line = log(LEVEL_INFO, LEVEL_WARN, "WARN", "c", "m", "t").unwrap();
    assert_eq!(line.matches('\n').count(), 1);
}

#[test]
fn log_lines_are_json() {
    assert_eq!(escape_message("a\rb\t\u{1}\u{1f}/"), "a\\rb\\t\\u0001\\u001f/");
    let msg = "x\r\ny \"z\" \\ \u{7}\u{8}\u{c} 中文";
    let comp = "c\"o\nmp";
    let level = "WA\rRN";
    let line = log_line("2026\n08", level, comp, msg);
    assert_eq!(line.matches('\n').count(), 1);
    assert!(line.ends_with('\n'));
    let v: serde_json::Value = serde_json::from_str(line.trim_end()).expect("a log line is JSON");
    assert_eq!(v["ts"], "2026\n08");
    assert_eq!(v["level"], level);
    assert_eq!(v["comp"], comp);
    assert_eq!(v["msg"], msg);
}

#[test]
fn log_files_and_rotation() {
    assert_eq!(log_dir(Some("/var/log/x".to_string()), Platform::Linux, None, None), "/var/log/x");
    assert_eq!(log_dir(None, Platform::Linux, None, None), "/tmp");
    assert_eq!(
        log_dir(None, Platform::Linux, None, Some("/home/u".to_string())),
        "/home/u/dsh-collab/logs"
    );
    assert_eq!(log_dir(None, Platform::MacOs, None, None), "./dsh-collab/logs");
    assert_eq!(
        log_dir(None, Platform::Windows, Some("C:\\Users\\u".to_string()), None),
        "C:\\Users\\u\\.dsh\\logs"
    );
    assert_eq!(log_path("/tmp"), "/tmp/node-bridge.log");
    assert!(!needs_rotation(5 * 1024 * 1024));
    assert!(needs_rotation(5 * 1024 * 1024 + 1));
    let moves = rotation_moves("/tmp/node-bridge.log");
    assert_eq!(
        moves,
        vec![
            ("/tmp/node-bridge.log.2".to_string(), "/tmp/node-bridge.log.3".to_string()),
            ("/tmp/node-bridge.log.1".to_string(), "/tmp/node-bridge.log.2".to_string()),
            ("/tmp/node-bridge.log".to_string(), "/tmp/node-bridge.log.1".to_string()),
        ]
    );
}
