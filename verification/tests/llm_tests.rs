use node_bridge::json::Json;
use node_bridge::llm::{
    model_outcome, model_program, model_prompt, clean_output, dead_letter_entry,
    dead_letter_file, inbox_topic, ledger_entry, ledger_lines, model_timeout_error, lock_file_name, quota, reply_file, reply_message,
    reply_target, should_trigger, LlmAction, LlmEvent, LlmFlow, LlmStage, DAILY_QUOTA,
};

fn s(t: &str) -> Json {
    Json::Str(t.to_string())
}

fn obj(members: Vec<(&str, Json)>) -> Json {
    Json::Object(members.into_iter().map(|(k, v)| (k.to_string(), v)).collect())
}

fn str_member<'a>(j: &'a Json, key: &str) -> Option<&'a str> {
    match j.get(key) {
        Some(Json::Str(t)) => Some(t.as_str()),
        _ => None,
    }
}

fn from_value(v: &serde_json::Value) -> Json {
    match v {
        serde_json::Value::Null => Json::Null,
        serde_json::Value::Bool(b) => Json::Bool(*b),
        serde_json::Value::Number(n) => Json::PosInt(n.as_u64().unwrap_or(0)),
        serde_json::Value::String(t) => Json::Str(t.clone()),
        serde_json::Value::Array(a) => Json::Array(a.iter().map(from_value).collect()),
        serde_json::Value::Object(m) => {
            Json::Object(m.iter().map(|(k, v)| (k.clone(), from_value(v))).collect())
        }
    }
}

fn to_value(j: &Json) -> serde_json::Value {
    match j {
        Json::Str(t) => serde_json::Value::String(t.clone()),
        Json::Object(f) => {
            let mut m = serde_json::Map::new();
            for (k, v) in f {
                m.insert(k.clone(), to_value(v));
            }
            serde_json::Value::Object(m)
        }
        _ => serde_json::Value::Null,
    }
}

/// The ledger's records as the executor reads them: each line with its
/// JSON value when it parses.
fn records(ledger: &str) -> Vec<(String, Option<Json>)> {
    ledger_lines(ledger)
        .into_iter()
        .map(|l| {
            let parsed = serde_json::from_str::<serde_json::Value>(&l).ok().map(|v| from_value(&v));
            (l, parsed)
        })
        .collect()
}

fn record_line(ts: &str, day: &str, topic: &str, status: &str, detail: &str) -> String {
    to_value(&ledger_entry(ts, day, topic, status, detail)).to_string()
}

#[test]
fn should_trigger_llm_marker_only() {
    assert!(should_trigger(&obj(vec![("llm", Json::Bool(true))]), "any-topic"));
    assert!(!should_trigger(&obj(vec![]), "ask-hello"));
    assert!(!should_trigger(&obj(vec![]), "llm-question"));
}

#[test]
fn no_trigger_on_reply_loop() {
    assert!(!should_trigger(
        &obj(vec![("content", s("hi")), ("llm", Json::Bool(true))]),
        "llm-reply-ask-hello"
    ));
    assert!(!should_trigger(
        &obj(vec![("llm_reply", Json::Bool(true)), ("llm", Json::Bool(true))]),
        "anything"
    ));
    assert!(!should_trigger(&obj(vec![("content", s("普通消息"))]), "normal-msg"));
}

#[test]
fn quota_ledger_count() {
    let today_str = "2026-08-30";
    let ledger = format!(
        "{{\"day\":\"{}\",\"topic\":\"a\"}}\n{{\"day\":\"{}\",\"topic\":\"b\"}}\n{{\"day\":\"2020-01-01\",\"topic\":\"old\"}}\n",
        today_str, today_str
    );
    let (used, remain) = quota(&records(&ledger), today_str);
    assert_eq!(used, 2, "应只计今天的行");
    assert_eq!(remain, DAILY_QUOTA - 2);
}

#[test]
fn quota_without_ledger_or_when_spent() {
    assert_eq!(quota(&Vec::new(), "2026-08-30"), (0, 50));
    let line = "{\"day\":\"2026-08-30\"}\n";
    let full = line.repeat(60);
    assert_eq!(quota(&records(&full), "2026-08-30"), (60, 0));
    // A line that is not JSON still counts when it mentions the day.
    assert_eq!(quota(&records("2026-08-30 garbled\n"), "2026-08-30"), (1, 49));
}

#[test]
fn quota_counts_runs_not_outcomes() {
    let day = "2026-08-30";
    let mut ledger = String::new();
    for i in 0..49 {
        ledger.push_str(&record_line("t", day, "x", "call", &format!("run {}", i)));
        ledger.push('\n');
        ledger.push_str(&record_line("t", day, "x", if i % 2 == 0 { "ok" } else { "error" }, "r"));
        ledger.push('\n');
    }
    assert_eq!(quota(&records(&ledger), day), (49, 1));
    ledger.push_str(&record_line("t", day, "x", "call", "last"));
    ledger.push('\n');
    ledger.push_str(&record_line("t", day, "x", "quota_exceeded", "used=50/50"));
    assert_eq!(quota(&records(&ledger), day), (50, 0));
    assert_eq!(quota(&records(&ledger), "2026-08-31"), (0, 50));
    let first = ledger.lines().next().unwrap();
    assert!(first.starts_with("{\"day\":\"2026-08-30\",\"detail\":\"run 0\",\"model\":"));
    assert_eq!(model_timeout_error("llm"), "llm timeout after 10s");
}

#[test]
fn executor_file_names() {
    assert_eq!(lock_file_name("topic-a"), ".lock-topic-a.json");
    assert_eq!(lock_file_name("a/b c"), ".lock-a_b_c.json");
    assert_eq!(inbox_topic("ask-hi.json"), Some("ask-hi".to_string()));
    assert_eq!(inbox_topic(".hidden.json"), None);
    assert_eq!(inbox_topic("notes.txt"), None);
    assert_eq!(reply_file("ask-hi"), "llm-reply-ask-hi.json");
    assert_eq!(dead_letter_file("t/x", "2026-08-30T10:11:12"), "t_x-2026-08-30T101112.json");
}

#[test]
fn records_and_replies() {
    let e = ledger_entry("2026-08-30T10:00:00", "2026-08-30", "t", "ok", "fine");
    assert_eq!(str_member(&e, "day"), Some("2026-08-30"));
    assert_eq!(str_member(&e, "status"), Some("ok"));
    assert_eq!(str_member(&e, "model"), Some("deepseek-v4-flash"));
    let d = dead_letter_entry(obj(vec![("content", s("x"))]), "boom", "now");
    assert_eq!(str_member(&d, "content"), Some("x"));
    assert_eq!(str_member(&d, "dead_reason"), Some("boom"));
    assert_eq!(str_member(&d, "dead_at"), Some("now"));
    let msg = obj(vec![("from", s("i9")), ("llm", Json::Bool(true))]);
    assert_eq!(reply_target(&msg, "mbp"), "i9");
    assert_eq!(reply_target(&obj(vec![("from", s("coordinator"))]), "mbp"), "mbp");
    let r = reply_message("mbp", "ask", "answer", "ts", &msg);
    assert_eq!(str_member(&r, "subject"), Some("llm-reply-ask"));
    assert_eq!(str_member(&r, "to"), Some("i9"));
    assert!(matches!(r.get("llm_reply"), Some(Json::Bool(true))));
    // A reply never wakes the model again.
    assert!(!should_trigger(&r, "llm-reply-ask"));
    assert!(!should_trigger(&r, "whatever"));
}

#[test]
fn model_run_outcomes() {
    assert!(model_prompt("hi").ends_with("hi"));
    assert_eq!(model_program("/home/u", "llm", true, true), "/home/u/.local/bin/llm");
    assert_eq!(model_program("/home/u", "llm", false, true), "/opt/homebrew/bin/llm");
    assert_eq!(model_program("/home/u", "llm", false, false), "llm");
    assert_eq!(clean_output("Ignoring x\n  answer  \n"), "answer");
    assert_eq!(
        model_outcome("llm", false, "1", b"", b"bad thing"),
        Err("llm exit 1: bad thing".to_string())
    );
    assert_eq!(model_outcome("llm", true, "0", b"ok\n", b""), Ok("ok".to_string()));
    assert_eq!(model_outcome("llm", false, "1", b"partial", b"e"), Ok("partial".to_string()));
}

fn flow_for(message: Json) -> LlmFlow {
    match LlmFlow::start("mbp", "ask-hi.json", "{}", message) {
        Some((flow, LlmAction::TakeLock { lock_file })) => {
            assert_eq!(lock_file, ".lock-ask-hi.json");
            flow
        }
        _ => panic!("an llm message starts a flow"),
    }
}

#[test]
fn flow_happy_path() {
    assert!(LlmFlow::start("mbp", "ask-hi.json", "{}", obj(vec![])).is_none());
    let msg = obj(vec![("llm", Json::Bool(true)), ("content", s("hello")), ("from", s("i9"))]);
    let flow = flow_for(msg);
    let (flow, acts) = flow.step(LlmEvent::Lock { acquired: true });
    assert!(matches!(acts.as_slice(), [LlmAction::ReadLedger]));
    let (flow, acts) =
        flow.step(LlmEvent::Ledger { records: Vec::new(), today: "2026-08-30".to_string() });
    assert!(matches!(flow.stage, LlmStage::Calling { attempt: 0 }));
    assert!(matches!(&acts[1], LlmAction::Call { prompt } if prompt.ends_with("hello")));
    let (flow, acts) = flow.step(LlmEvent::Reply {
        result: Ok("hi there".to_string()),
        now: "2026-08-30T10:00:00".to_string(),
    });
    assert!(flow.is_done());
    match &acts[0] {
        LlmAction::WriteReply { file_name, message } => {
            assert_eq!(file_name, "llm-reply-ask-hi.json");
            assert_eq!(str_member(message, "to"), Some("i9"));
            assert_eq!(str_member(message, "content"), Some("hi there"));
        }
        _ => panic!("the reply is written first"),
    }
    assert!(matches!(acts[acts.len() - 2], LlmAction::MarkProcessed));
    assert!(matches!(acts[acts.len() - 1], LlmAction::ReleaseLock));
}

#[test]
fn flow_retries_then_dead_letters() {
    let msg = obj(vec![("llm", Json::Bool(true))]);
    let flow = flow_for(msg);
    let (flow, _) = flow.step(LlmEvent::Lock { acquired: true });
    let (mut flow, _) =
        flow.step(LlmEvent::Ledger { records: Vec::new(), today: "2026-08-30".to_string() });
    let mut sleeps = Vec::new();
    let mut calls = 1;
    loop {
        let (next, acts) =
            flow.step(LlmEvent::Reply { result: Err("down".to_string()), now: "t".to_string() });
        flow = next;
        for a in &acts {
            match a {
                LlmAction::Sleep { secs } => sleeps.push(*secs),
                LlmAction::Call { .. } => calls += 1,
                _ => {}
            }
        }
        if flow.is_done() {
            assert!(acts.iter().any(|a| matches!(a, LlmAction::DeadLetter { reason } if reason == "down")));
            assert!(matches!(acts[acts.len() - 1], LlmAction::ReleaseLock));
            break;
        }
    }
    assert_eq!(sleeps, vec![2, 8]);
    assert_eq!(calls, 3);
}

#[test]
fn flow_refuses_when_quota_spent_or_busy() {
    let flow = flow_for(obj(vec![("llm", Json::Bool(true))]));
    let (flow, _) = flow.step(LlmEvent::Lock { acquired: true });
    let ledger = "{\"day\":\"2026-08-30\"}\n".repeat(50);
    let (flow, acts) =
        flow.step(LlmEvent::Ledger { records: records(&ledger), today: "2026-08-30".to_string() });
    assert!(flow.is_done());
    assert!(!acts.iter().any(|a| matches!(a, LlmAction::Call { .. })));
    assert!(acts.iter().any(|a| matches!(a, LlmAction::DeadLetter { reason } if reason == "daily quota exceeded")));

    let flow = flow_for(obj(vec![("llm", Json::Bool(true))]));
    let (flow, acts) = flow.step(LlmEvent::Lock { acquired: false });
    assert!(flow.is_done());
    assert!(!acts.iter().any(|a| matches!(a, LlmAction::ReleaseLock)));
}
