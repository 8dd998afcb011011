//! The LLM executor's gates: which inbox messages wake the model, the daily
//! quota, the per-topic lock, retries with back-off, the dead-letter record
//! and the reply that goes back out.
//!
//! One inbox message is handled by an [`LlmFlow`]: the caller performs each
//! [`LlmAction`] it asks for (taking the lock file, reading the ledger,
//! running the model, writing files) and reports back with an [`LlmEvent`].

use vstd::prelude::*;
use crate::listing::string_views;
use crate::json::{member_spec, push_member, text, Json};
use crate::text::{
    chars_of, contains, contains_spec, decimal, is_json_file, is_json_name, lines, lines_spec,
    push_decimal, push_text, safe_name, safe_name_spec, same_text, starts_with, string_of, take_chars,
    take_spec, topic_from_file_name, topic_of_name, trim, trim_spec, views,
};

verus! {

broadcast use vstd::string::group_string_axioms;

/// The model every call is pinned to.
pub const FORCED_MODEL: &'static str = "deepseek-v4-flash";

/// Calls allowed per day.
pub const DAILY_QUOTA: u32 = 50;

/// The append-only call ledger, one JSON line per event.
pub const LEDGER_FILE: &'static str = "llm-ledger.jsonl";

/// Where messages go whose handling failed for good.
pub const DEAD_LETTER_DIR: &'static str = "llm-dead";

// ---------------------------------------------------------------------------
// Trigger
// ---------------------------------------------------------------------------

/// A message wakes the model only when it is marked `llm: true`, is not
/// itself a reply (`llm_reply: true`), and its topic is not a reply topic
/// (`llm-reply-` prefix).
pub open spec fn should_trigger_spec(value: Json, topic: Seq<char>) -> bool {
    &&& !"llm-reply-"@.is_prefix_of(topic)
    &&& value.bool_member("llm_reply"@) != Some(true)
    &&& value.bool_member("llm"@) == Some(true)
}

/// Only an explicit `llm: true` wakes the model: a message whose `llm`
/// member is missing, `false` or anything but the boolean `true` never
/// does, whatever its topic.
pub proof fn lemma_trigger_needs_llm_true(value: Json, topic: Seq<char>)
    requires
        value.get_spec("llm"@) != Some(Json::Bool(true)),
    ensures
        !should_trigger_spec(value, topic),
{
}

/// A reply never wakes the model: neither one marked `llm_reply: true` nor
/// one under an `llm-reply-` topic, even when it asks for the model.
pub proof fn lemma_reply_never_triggers(value: Json, topic: Seq<char>)
    requires
        value.get_spec("llm_reply"@) == Some(Json::Bool(true)) || "llm-reply-"@.is_prefix_of(topic),
    ensures
        !should_trigger_spec(value, topic),
{
}

/// A message that asks for the model (`llm: true`), is not marked as a
/// reply and is not under a reply topic wakes it.
pub proof fn lemma_trigger_on_request(value: Json, topic: Seq<char>)
    requires
        value.get_spec("llm"@) == Some(Json::Bool(true)),
        value.get_spec("llm_reply"@) != Some(Json::Bool(true)),
        !"llm-reply-"@.is_prefix_of(topic),
    ensures
        should_trigger_spec(value, topic),
{
}

/// Whether `value`, arriving under `topic`, wakes the model.
pub fn should_trigger(value: &Json, topic: &str) -> (r: bool)
    ensures
        r == should_trigger_spec(*value, topic@),
{
    if starts_with(topic, "llm-reply-") {
        return false;
    }
    if value.bool_member_exec("llm_reply") == Some(true) {
        return false;
    }
    value.bool_member_exec("llm") == Some(true)
}

// ---------------------------------------------------------------------------
// Quota
// ---------------------------------------------------------------------------

/// The ledger's lines (`str::lines`).
pub fn ledger_lines(content: &str) -> (r: Vec<String>)
    ensures
        string_views(r@) == lines_spec(content@),
{
    let t = chars_of(content);
    let ls = lines(&t);
    let mut out: Vec<String> = Vec::new();
    let mut i: usize = 0;
    while i < ls.len()
        invariant
            i <= ls.len(),
            t@ == content@,
            views(ls@) == lines_spec(content@),
            string_views(out@) == views(ls@).take(i as int),
            out@.len() == i,
        decreases ls.len() - i,
    {
        let ghost before = out@;
        out.push(string_of(&ls[i]));
        proof {
            assert(views(ls@)[i as int] == ls@[i as int]@);
            assert(out@[i as int]@ == ls@[i as int]@);
            let sv = string_views(out@);
            let bv = string_views(before);
            assert forall|k: int| 0 <= k < i + 1 implies #[trigger] sv[k] == views(ls@).take(
                i + 1,
            )[k] by {
                if k < i {
                    assert(out@[k] == before[k]);
                    assert(bv[k] == views(ls@).take(i as int)[k]);
                }
            }
            assert(sv =~= views(ls@).take(i + 1));
        }
        i = i + 1;
    }
    proof {
        assert(views(ls@).take(ls@.len() as int) =~= views(ls@));
    }
    out
}

/// The statuses that record how an event ended, rather than a run of the
/// model: `ok`, `error`, `quota_exceeded`.
pub open spec fn is_outcome_status(s: Seq<char>) -> bool {
    s == "ok"@ || s == "error"@ || s == "quota_exceeded"@
}

/// A ledger record (parsed from its line, when the line is JSON) whose
/// `status` member records an outcome.
pub open spec fn records_outcome(parsed: Option<Json>) -> bool {
    match parsed {
        Some(v) => match v.str_member("status"@) {
            Some(st) => is_outcome_status(st),
            None => false,
        },
        None => false,
    }
}

/// A ledger record counts against the day's quota when its line mentions
/// the day and it does not record an outcome. Each run of the model leaves
/// exactly one such record, its `call` record.
pub open spec fn counts_run(line: Seq<char>, parsed: Option<Json>, today: Seq<char>) -> bool {
    contains_spec(line, today) && !records_outcome(parsed)
}

/// How many of the records count against the day's quota.
pub open spec fn quota_used(records: Seq<(String, Option<Json>)>, today: Seq<char>) -> nat
    decreases records.len(),
{
    if records.len() == 0 {
        0
    } else {
        quota_used(records.drop_last(), today) + if counts_run(
            records.last().0@,
            records.last().1,
            today,
        ) {
            1nat
        } else {
            0nat
        }
    }
}

/// Calls still allowed today.
pub open spec fn quota_left(used: nat) -> nat {
    if used >= DAILY_QUOTA {
        0
    } else {
        (DAILY_QUOTA - used) as nat
    }
}

/// Counting never exceeds the number of records.
pub proof fn lemma_count_le(records: Seq<(String, Option<Json>)>, today: Seq<char>)
    ensures
        quota_used(records, today) <= records.len(),
    decreases records.len(),
{
    if records.len() > 0 {
        lemma_count_le(records.drop_last(), today);
    }
}

/// The ledger record of an event: `day`, `detail`, `model`, `status`,
/// `topic` and `ts`, as strings, in that (sorted) order.
pub open spec fn ledger_record_is(
    r: Json,
    ts: Seq<char>,
    day: Seq<char>,
    topic: Seq<char>,
    status: Seq<char>,
    detail: Seq<char>,
) -> bool {
    crate::json::text_object_is(
        r,
        seq!["day"@, "detail"@, "model"@, "status"@, "topic"@, "ts"@],
        seq![day, detail, FORCED_MODEL@, status, topic, ts],
    )
}

/// The status member of a ledger record is its status.
proof fn lemma_record_status(
    r: Json,
    ts: Seq<char>,
    day: Seq<char>,
    topic: Seq<char>,
    status: Seq<char>,
    detail: Seq<char>,
)
    requires
        ledger_record_is(r, ts, day, topic, status, detail),
    ensures
        r.str_member("status"@) == Some(status),
{
    reveal_strlit("day");
    reveal_strlit("detail");
    reveal_strlit("model");
    reveal_strlit("status");
    let f = crate::json::members(r);
    let keys = seq!["day"@, "detail"@, "model"@, "status"@, "topic"@, "ts"@];
    assert(f[0].0@ == keys[0] && f[1].0@ == keys[1] && f[2].0@ == keys[2] && f[3].0@ == keys[3]);
    assert("day"@[0] != "status"@[0]);
    assert("detail"@[0] != "status"@[0]);
    assert("model"@[0] != "status"@[0]);
    crate::json::lemma_member_at(f, 3, "status"@);
}

/// Each run of the model counts once against its day's quota: its `call`
/// record counts as soon as its line mentions the day (the line holds its
/// `day` member), and the records of outcomes (`ok`, `error`,
/// `quota_exceeded`) never count, so the quota allows 50 runs a day.
pub proof fn lemma_quota_counts_runs(
    line: Seq<char>,
    r: Json,
    ts: Seq<char>,
    day: Seq<char>,
    topic: Seq<char>,
    status: Seq<char>,
    detail: Seq<char>,
)
    requires
        ledger_record_is(r, ts, day, topic, status, detail),
    ensures
        status == "call"@ && contains_spec(line, day) ==> counts_run(line, Some(r), day),
        is_outcome_status(status) ==> !counts_run(line, Some(r), day),
{
    reveal_strlit("call");
    reveal_strlit("ok");
    reveal_strlit("error");
    reveal_strlit("quota_exceeded");
    lemma_record_status(r, ts, day, topic, status, detail);
    assert("call"@.len() == 4 && "ok"@.len() == 2 && "quota_exceeded"@.len() == 14);
    assert("call"@ != "error"@) by {
        assert("call"@[0] != "error"@[0]);
    }
}

/// A sequence of runs, each recorded by its `call` record and then its
/// outcome record.
pub open spec fn run_records(
    runs: Seq<((String, Option<Json>), (String, Option<Json>))>,
) -> Seq<(String, Option<Json>)>
    decreases runs.len(),
{
    if runs.len() == 0 {
        Seq::empty()
    } else {
        run_records(runs.drop_last()).push(runs.last().0).push(runs.last().1)
    }
}

/// Over a day, the quota counts the runs made that day: with a ledger that
/// holds nothing counting for the day, after `k` runs whose call records
/// mention the day and whose outcome records record an outcome, `k` are
/// used, and the model may run again only while `k < 50`.
pub proof fn lemma_day_of_runs(
    base: Seq<(String, Option<Json>)>,
    runs: Seq<((String, Option<Json>), (String, Option<Json>))>,
    day: Seq<char>,
)
    requires
        quota_used(base, day) == 0,
        forall|i: int|
            0 <= i < runs.len() ==> counts_run((#[trigger] runs[i]).0.0@, runs[i].0.1, day)
                && records_outcome(runs[i].1.1),
    ensures
        quota_used(base + run_records(runs), day) == runs.len(),
        quota_left(quota_used(base + run_records(runs), day)) > 0 <==> runs.len() < DAILY_QUOTA,
    decreases runs.len(),
{
    if runs.len() == 0 {
        assert(base + run_records(runs) =~= base);
    } else {
        let front = runs.drop_last();
        assert forall|i: int| 0 <= i < front.len() implies counts_run(
            (#[trigger] front[i]).0.0@,
            front[i].0.1,
            day,
        ) && records_outcome(front[i].1.1) by {
            assert(front[i] == runs[i]);
        }
        lemma_day_of_runs(base, front, day);
        let last = runs.last();
        assert(runs[runs.len() - 1] == last);
        let mid = base + run_records(front);
        let one = mid.push(last.0);
        let two = one.push(last.1);
        assert(base + run_records(runs) =~= two);
        assert(two.drop_last() =~= one);
        assert(one.drop_last() =~= mid);
        assert(two.last() == last.1);
        assert(one.last() == last.0);
        assert(counts_run(last.0.0@, last.0.1, day) && records_outcome(last.1.1));
        assert(quota_used(one, day) == quota_used(mid, day) + 1);
        assert(quota_used(two, day) == quota_used(one, day));
    }
}

/// Today's use of the quota and what is left of it, from the ledger's
/// records: each line with its JSON value when it parses (none for a
/// ledger that could not be read).
pub fn quota(records: &Vec<(String, Option<Json>)>, today: &str) -> (r: (u32, u32))
    requires
        records.len() < u32::MAX,
    ensures
        r.0 == quota_used(records@, today@),
        r.1 == quota_left(r.0 as nat),
{
    let mut count: u32 = 0;
    let mut i: usize = 0;
    proof {
        assert(records@.take(0) =~= Seq::<(String, Option<Json>)>::empty());
    }
    while i < records.len()
        invariant
            i <= records.len(),
            records.len() < u32::MAX,
            count as nat == quota_used(records@.take(i as int), today@),
            count <= i,
        decreases records.len() - i,
    {
        proof {
            assert(records@.take(i + 1).drop_last() =~= records@.take(i as int));
            assert(records@.take(i + 1).last() == records@[i as int]);
        }
        let line = &records[i].0;
        let outcome = match &records[i].1 {
            Some(v) => match v.str_member_exec("status") {
                Some(st) => same_text(st.as_str(), "ok") || same_text(st.as_str(), "error")
                    || same_text(st.as_str(), "quota_exceeded"),
                None => false,
            },
            None => false,
        };
        if contains(line.as_str(), today) && !outcome {
            count = count + 1;
        }
        i = i + 1;
    }
    proof {
        assert(records@.take(records.len() as int) =~= records@);
    }
    let left = if count >= DAILY_QUOTA { 0 } else { DAILY_QUOTA - count };
    (count, left)
}

// ---------------------------------------------------------------------------
// Files of the executor
// ---------------------------------------------------------------------------

/// The lock file that guards `topic`: `.lock-<safe topic>.json`.
pub open spec fn lock_file_spec(topic: Seq<char>) -> Seq<char> {
    ".lock-"@ + safe_name_spec(topic) + ".json"@
}

/// The lock file name for `topic`.
pub fn lock_file_name(topic: &str) -> (r: String)
    ensures
        r@ == lock_file_spec(topic@),
{
    let safe = safe_name(topic);
    let mut v: Vec<char> = Vec::new();
    push_text(&mut v, ".lock-");
    push_text(&mut v, safe.as_str());
    push_text(&mut v, ".json");
    string_of(&v)
}

/// The topic of an inbox file the executor looks at: a `.json` file whose
/// name does not start with `.`.
pub open spec fn inbox_topic_spec(file_name: Seq<char>) -> Option<Seq<char>> {
    if is_json_name(file_name) && !"."@.is_prefix_of(file_name) {
        Some(topic_of_name(file_name))
    } else {
        None
    }
}

/// The topic of an inbox file, or `None` for files the executor ignores.
pub fn inbox_topic(file_name: &str) -> (r: Option<String>)
    ensures
        match r {
            Some(t) => inbox_topic_spec(file_name@) == Some(t@),
            None => inbox_topic_spec(file_name@) is None,
        },
{
    if is_json_file(file_name) && !starts_with(file_name, ".") {
        Some(topic_from_file_name(file_name))
    } else {
        None
    }
}

/// The ledger record of one event.
pub fn ledger_entry(ts: &str, day: &str, topic: &str, status: &str, detail: &str) -> (r: Json)
    ensures
        ledger_record_is(r, ts@, day@, topic@, status@, detail@),
{
    let mut f: Vec<(String, Json)> = Vec::new();
    push_member(&mut f, "day", text(day));
    push_member(&mut f, "detail", text(detail));
    push_member(&mut f, "model", text(FORCED_MODEL));
    push_member(&mut f, "status", text(status));
    push_member(&mut f, "topic", text(topic));
    push_member(&mut f, "ts", text(ts));
    proof {
        let keys = seq!["day"@, "detail"@, "model"@, "status"@, "topic"@, "ts"@];
        let texts = seq![day@, detail@, FORCED_MODEL@, status@, topic@, ts@];
        assert forall|i: int| 0 <= i < f@.len() implies (#[trigger] f@[i]).0@ == keys[i]
            && f@[i].1.str_spec() == Some(texts[i]) by {
            assert(f@.take(i + 1)[i] == f@[i]);
        }
    }
    Json::Object(f)
}

/// The dead-letter record of a message: the message itself, with
/// `dead_reason` and `dead_at` added when it is an object (other values are
/// kept as they are).
pub fn dead_letter_entry(message: Json, reason: &str, at: &str) -> (r: Json)
    ensures
        message is Object ==> {
            &&& r is Object
            &&& r.str_member("dead_reason"@) == Some(reason@)
            &&& r.str_member("dead_at"@) == Some(at@)
            &&& forall|k: Seq<char>|
                k != "dead_reason"@ && k != "dead_at"@ ==> #[trigger] r.get_spec(k)
                    == message.get_spec(k)
        },
        !(message is Object) ==> r == message,
{
    match message {
        Json::Object(f) => {
            let mut g = f;
            let ghost f0 = g@;
            let jr = text(reason);
            let ja = text(at);
            let ghost vr = jr;
            let ghost va = ja;
            crate::json::insert_member(&mut g, "dead_reason", jr);
            let ghost g1 = g@;
            crate::json::insert_member(&mut g, "dead_at", ja);
            proof {
                reveal_strlit("dead_reason");
                reveal_strlit("dead_at");
                assert("dead_reason"@.len() != "dead_at"@.len());
                assert("dead_reason"@ != "dead_at"@);
                assert(member_spec(g@, "dead_at"@) == Some(va));
                assert(member_spec(g1, "dead_reason"@) == Some(vr));
                assert(member_spec(g@, "dead_reason"@) == member_spec(g1, "dead_reason"@));
                assert forall|k: Seq<char>|
                    k != "dead_reason"@ && k != "dead_at"@ implies #[trigger] member_spec(g@, k)
                        == member_spec(f0, k) by {
                    assert(member_spec(g@, k) == member_spec(g1, k));
                }
            }
            Json::Object(g)
        },
        other => other,
    }
}

// ---------------------------------------------------------------------------
// Running the model
// ---------------------------------------------------------------------------

/// The model's instruction, followed by the message.
pub open spec fn model_prompt_spec(prompt: Seq<char>) -> Seq<char> {
    "你是端侧节点智能体。收到一条消息，请处理并回复（简洁中文）：\n"@ + prompt
}

/// The full prompt handed to the model for a message.
pub fn model_prompt(prompt: &str) -> (r: String)
    ensures
        r@ == model_prompt_spec(prompt@),
{
    let mut v: Vec<char> = Vec::new();
    push_text(&mut v, "你是端侧节点智能体。收到一条消息，请处理并回复（简洁中文）：\n");
    push_text(&mut v, prompt);
    string_of(&v)
}

/// The model's command line `cli`: the per-user install when it exists,
/// else the Homebrew install when that exists, else the bare name, found on
/// `PATH`.
pub open spec fn model_program_spec(home: Seq<char>, cli: Seq<char>, user_exists: bool, brew_exists: bool) -> Seq<
    char,
> {
    if user_exists {
        home + "/.local/bin/"@ + cli
    } else if brew_exists {
        "/opt/homebrew/bin/"@ + cli
    } else {
        cli
    }
}

/// The per-user install location of the model's command line `cli`.
pub fn model_user_path(home: &str, cli: &str) -> (r: String)
    ensures
        r@ == home@ + "/.local/bin/"@ + cli@,
{
    let mut v: Vec<char> = Vec::new();
    push_text(&mut v, home);
    push_text(&mut v, "/.local/bin/");
    push_text(&mut v, cli);
    string_of(&v)
}

/// The program to run for the model.
pub fn model_program(home: &str, cli: &str, user_exists: bool, brew_exists: bool) -> (r: String)
    ensures
        r@ == model_program_spec(home@, cli@, user_exists, brew_exists),
{
    if user_exists {
        model_user_path(home, cli)
    } else if brew_exists {
        let mut v: Vec<char> = Vec::new();
        push_text(&mut v, "/opt/homebrew/bin/");
        push_text(&mut v, cli);
        string_of(&v)
    } else {
        crate::text::owned(cli)
    }
}

/// How long one run of the model may take before it is stopped.
pub const MODEL_TIMEOUT_SECS: u64 = 10;

/// The error of a run of the model `cli` that was stopped for taking too
/// long: `<cli> timeout after 10s`.
pub fn model_timeout_error(cli: &str) -> (r: String)
    ensures
        r@ == cli@ + " timeout after "@ + decimal(MODEL_TIMEOUT_SECS as nat) + "s"@,
{
    let mut v: Vec<char> = Vec::new();
    push_text(&mut v, cli);
    push_text(&mut v, " timeout after ");
    push_decimal(&mut v, MODEL_TIMEOUT_SECS);
    push_text(&mut v, "s");
    string_of(&v)
}

/// Output lines that are kept: not warnings that start with `Ignoring`
/// and not the trust-dialog notice.
pub open spec fn keep_line(l: Seq<char>) -> bool {
    !"Ignoring"@.is_prefix_of(l) && !contains_spec(l, "hasTrustDialogAccepted"@)
}

/// The kept lines, in order.
pub open spec fn kept_lines(ls: Seq<Seq<char>>) -> Seq<Seq<char>>
    decreases ls.len(),
{
    if ls.len() == 0 {
        Seq::empty()
    } else if keep_line(ls.last()) {
        kept_lines(ls.drop_last()).push(ls.last())
    } else {
        kept_lines(ls.drop_last())
    }
}

/// The reply text in the model's output: the kept lines joined by line
/// feeds, trimmed.
pub open spec fn clean_output_spec(out: Seq<char>) -> Seq<char> {
    trim_spec(crate::text::join_spec(kept_lines(lines_spec(out)), "\n"@))
}

/// What a run of the model gives: a failed run with nothing on its output
/// is an error naming the exit status and the start of the error output;
/// otherwise the cleaned output.
pub open spec fn model_outcome_spec(
    cli: Seq<char>,
    success: bool,
    status: Seq<char>,
    out: Seq<char>,
    err: Seq<char>,
) -> Result<Seq<char>, Seq<char>> {
    if !success && trim_spec(out).len() == 0 {
        Err(cli + " exit "@ + status + ": "@ + take_spec(trim_spec(err), 200))
    } else {
        Ok(clean_output_spec(out))
    }
}

/// Cleans the model's output text.
pub fn clean_output(out: &str) -> (r: String)
    ensures
        r@ == clean_output_spec(out@),
{
    let t = chars_of(out);
    let ls = lines(&t);
    let nl: Vec<char> = vec!['\n'];
    let mut joined: Vec<char> = Vec::new();
    let mut count: usize = 0;
    let mut i: usize = 0;
    proof {
        reveal_strlit("\n");
        assert(nl@ =~= "\n"@);
        assert(views(ls@).take(0) =~= Seq::<Seq<char>>::empty());
    }
    while i < ls.len()
        invariant
            i <= ls.len(),
            views(ls@) == lines_spec(out@),
            nl@ == "\n"@,
            count == kept_lines(views(ls@).take(i as int)).len(),
            count <= i,
            joined@ == crate::text::join_spec(kept_lines(views(ls@).take(i as int)), "\n"@),
        decreases ls.len() - i,
    {
        let ghost before = views(ls@).take(i as int);
        proof {
            assert(views(ls@).take(i + 1).drop_last() =~= before);
            assert(views(ls@)[i as int] == ls@[i as int]@);
        }
        let line = string_of(&ls[i]);
        let keep = !starts_with(line.as_str(), "Ignoring") && !contains(
            line.as_str(),
            "hasTrustDialogAccepted",
        );
        if keep {
            let ghost k = kept_lines(before);
            proof {
                assert(kept_lines(views(ls@).take(i + 1)) == k.push(line@));
                assert(k.push(line@).drop_last() =~= k);
            }
            if count > 0 {
                crate::text::extend_chars(&mut joined, &nl);
            }
            crate::text::extend_chars(&mut joined, &ls[i]);
            count = count + 1;
            proof {
                if k.len() == 0 {
                    assert(joined@ =~= line@);
                }
            }
        }
        i = i + 1;
    }
    proof {
        assert(views(ls@).take(ls@.len() as int) =~= views(ls@));
    }
    let c = trim(&joined);
    string_of(&c)
}

/// Reads a finished run of the model from its exit status and raw output.
pub fn model_outcome(cli: &str, success: bool, status: &str, stdout: &[u8], stderr: &[u8]) -> (r: Result<
    String,
    String,
>)
    ensures
        match r {
            Ok(t) => model_outcome_spec(
                cli@,
                success,
                status@,
                crate::text::lossy_text(stdout@),
                crate::text::lossy_text(stderr@),
            ) == Ok::<Seq<char>, Seq<char>>(t@),
            Err(e) => model_outcome_spec(
                cli@,
                success,
                status@,
                crate::text::lossy_text(stdout@),
                crate::text::lossy_text(stderr@),
            ) == Err::<Seq<char>, Seq<char>>(e@),
        },
{
    let out = crate::text::utf8_lossy(stdout);
    let err = crate::text::utf8_lossy(stderr);
    if !success {
        let o = crate::text::trim_str(out.as_str());
        if o.as_str().is_empty() {
            let e = crate::text::trim_str(err.as_str());
            let head = take_chars(e.as_str(), 200);
            let mut v: Vec<char> = Vec::new();
            push_text(&mut v, cli);
            push_text(&mut v, " exit ");
            push_text(&mut v, status);
            push_text(&mut v, ": ");
            push_text(&mut v, head.as_str());
            return Err(string_of(&v));
        }
    }
    Ok(clean_output(out.as_str()))
}

// ---------------------------------------------------------------------------
// Replies
// ---------------------------------------------------------------------------

/// Who a reply goes to: the message's sender, unless it is missing or the
/// coordinator, in which case the reply stays with this node.
pub open spec fn reply_target_spec(message: Json, node: Seq<char>) -> Seq<char> {
    match message.str_member("from"@) {
        Some(f) => if f != "coordinator"@ {
            f
        } else {
            node
        },
        None => node,
    }
}

/// The recipient of the reply to `message`.
pub fn reply_target(message: &Json, node: &str) -> (r: String)
    ensures
        r@ == reply_target_spec(*message, node@),
{
    let mut s = String::new();
    match message.str_member_exec("from") {
        Some(f) => if !crate::text::same_text(f.as_str(), "coordinator") {
            crate::text::push_str(&mut s, f.as_str());
        } else {
            crate::text::push_str(&mut s, node);
        },
        None => crate::text::push_str(&mut s, node),
    }
    s
}

/// The reply message: from this node, subject `llm-reply-<topic>`, the
/// model's text, marked `llm_reply: true`, stamped with `ts`, and addressed
/// (`to`) to the sender when that is another node.
pub open spec fn reply_is(r: Json, node: Seq<char>, topic: Seq<char>, reply: Seq<char>, ts: Seq<char>, target: Seq<char>) -> bool {
    let f = crate::json::members(r);
    &&& r is Object
    &&& crate::json::text_at(f, 0, "from"@, node)
    &&& crate::json::text_at(f, 1, "subject"@, "llm-reply-"@ + topic)
    &&& crate::json::text_at(f, 2, "content"@, reply)
    &&& f.len() > 3 && f[3].0@ == "llm_reply"@ && f[3].1 == Json::Bool(true)
    &&& crate::json::text_at(f, 4, "ts"@, ts)
    &&& if target != node {
        f.len() == 6 && crate::json::text_at(f, 5, "to"@, target)
    } else {
        f.len() == 5
    }
}

/// The reply to `message` received under `topic`.
pub fn reply_message(node: &str, topic: &str, reply: &str, ts: &str, message: &Json) -> (r: Json)
    ensures
        reply_is(r, node@, topic@, reply@, ts@, reply_target_spec(*message, node@)),
        forall|t: Seq<char>| !should_trigger_spec(r, t),
{
    let target = reply_target(message, node);
    let mut subject: Vec<char> = Vec::new();
    push_text(&mut subject, "llm-reply-");
    push_text(&mut subject, topic);
    let subject = string_of(&subject);
    let mut f: Vec<(String, Json)> = Vec::new();
    push_member(&mut f, "from", text(node));
    push_member(&mut f, "subject", text(subject.as_str()));
    push_member(&mut f, "content", text(reply));
    push_member(&mut f, "llm_reply", Json::Bool(true));
    push_member(&mut f, "ts", text(ts));
    let ghost f5 = f@;
    let other = !crate::text::same_text(target.as_str(), node);
    if other {
        push_member(&mut f, "to", text(target.as_str()));
    }
    proof {
        assert(f@[0] == f@.take(1)[0]);
        assert(f@[1] == f@.take(2)[1]);
        assert(f@[2] == f@.take(3)[2]);
        assert(f@[3] == f@.take(4)[3]);
        assert(f@[4] == f5[4]);
        reveal_strlit("from");
        reveal_strlit("subject");
        reveal_strlit("content");
        reveal_strlit("llm_reply");
        assert("from"@.len() != "llm_reply"@.len());
        assert("subject"@.len() != "llm_reply"@.len());
        assert("content"@.len() != "llm_reply"@.len());
        crate::json::lemma_member_at(f@, 3, "llm_reply"@);
        assert(member_spec(f@, "llm_reply"@) == Some(Json::Bool(true)));
    }
    Json::Object(f)
}

/// The dead-letter file of a message on `topic` written at time `now`:
/// `<safe topic>-<now without colons>.json`.
pub fn dead_letter_file(topic: &str, now: &str) -> (r: String)
    ensures
        r@ == safe_name_spec(topic@) + "-"@ + crate::text::without_char(now@, ':') + ".json"@,
{
    let safe = safe_name(topic);
    let stamp = crate::text::remove_char(now, ':');
    let mut v: Vec<char> = Vec::new();
    push_text(&mut v, safe.as_str());
    push_text(&mut v, "-");
    push_text(&mut v, stamp.as_str());
    push_text(&mut v, ".json");
    string_of(&v)
}

/// The reply file for `topic` in the outbox: `llm-reply-<topic>.json`.
pub fn reply_file(topic: &str) -> (r: String)
    ensures
        r@ == "llm-reply-"@ + topic@ + ".json"@,
{
    let mut v: Vec<char> = Vec::new();
    push_text(&mut v, "llm-reply-");
    push_text(&mut v, topic);
    push_text(&mut v, ".json");
    string_of(&v)
}

// ---------------------------------------------------------------------------
// Handling one message
// ---------------------------------------------------------------------------

/// Where the handling of a message stands.
pub enum LlmStage {
    /// Waiting to learn whether the topic's lock was taken.
    AwaitLock,
    /// Holding the lock, waiting for the ledger.
    AwaitLedger,
    /// Holding the lock, waiting for the outcome of call number
    /// `attempt + 1`.
    Calling { attempt: u8 },
    /// Finished.
    Done,
}

/// What the caller reports back.
pub enum LlmEvent {
    /// Whether the topic's lock file could be created.
    Lock { acquired: bool },
    /// The ledger's records, each line with its JSON value when it parses
    /// (none when the ledger could not be read), and today's date.
    Ledger { records: Vec<(String, Option<Json>)>, today: String },
    /// The outcome of a model run, and the local time it finished.
    Reply { result: Result<String, String>, now: String },
}

/// What the caller is asked to do, in order.
pub enum LlmAction {
    /// Create the lock file (in the inbox), failing if it exists.
    TakeLock { lock_file: String },
    /// Read the ledger file (in the inbox).
    ReadLedger,
    /// Print a line of progress.
    Note { text: String },
    /// Append a ledger record with this status and detail.
    Record { status: String, detail: String },
    /// Store the message under the dead-letter directory with this reason.
    DeadLetter { reason: String },
    /// Move the message file to the inbox's `.processed` directory.
    MarkProcessed,
    /// Remove the lock file.
    ReleaseLock,
    /// Run the model on this prompt.
    Call { prompt: String },
    /// Wait this many seconds.
    Sleep { secs: u64 },
    /// Write this message to this file of the outbox.
    WriteReply { file_name: String, message: Json },
}

/// The handling of one inbox message.
pub struct LlmFlow {
    /// This node's name.
    pub node: String,
    /// The message's topic.
    pub topic: String,
    /// The message.
    pub message: Json,
    /// The text given to the model.
    pub prompt: String,
    /// Where the handling stands.
    pub stage: LlmStage,
    /// How many model runs were asked for so far.
    pub calls: Ghost<nat>,
}

/// The stage holds the topic's lock.
pub open spec fn holds_lock(stage: LlmStage) -> bool {
    stage is AwaitLedger || stage is Calling
}

/// Pause before the next attempt after failed attempt number
/// `attempt + 1`: 2 s, then 8 s.
pub open spec fn retry_delay(attempt: u8) -> u64 {
    if attempt == 0 {
        2
    } else {
        8
    }
}

/// The text given to the model for a message: its `content` string, or the
/// file's whole text.
pub open spec fn prompt_spec(message: Json, raw: Seq<char>) -> Seq<char> {
    match message.str_member("content"@) {
        Some(c) => c,
        None => raw,
    }
}

/// The action is a run of the model.
pub open spec fn is_call(a: LlmAction) -> bool {
    a is Call
}

/// How many actions are runs of the model.
pub open spec fn count_calls(acts: Seq<LlmAction>) -> nat
    decreases acts.len(),
{
    if acts.len() == 0 {
        0
    } else {
        count_calls(acts.drop_last()) + if is_call(acts.last()) {
            1nat
        } else {
            0nat
        }
    }
}

/// A note with this text.
pub open spec fn note_is(a: LlmAction, t: Seq<char>) -> bool {
    a matches LlmAction::Note { text } && text@ == t
}

/// A ledger record with this status and detail.
pub open spec fn record_is(a: LlmAction, status: Seq<char>, detail: Seq<char>) -> bool {
    a matches LlmAction::Record { status: s, detail: d } && s@ == status && d@ == detail
}

/// A dead-letter action with this reason.
pub open spec fn dead_is(a: LlmAction, reason: Seq<char>) -> bool {
    a matches LlmAction::DeadLetter { reason: r } && r@ == reason
}

/// A model run on this prompt.
pub open spec fn call_is(a: LlmAction, prompt: Seq<char>) -> bool {
    a matches LlmAction::Call { prompt: p } && p@ == prompt
}

/// The closing actions of a handled message: move the file to
/// `.processed`, then release the lock.
pub open spec fn closes(acts: Seq<LlmAction>, from: int) -> bool {
    &&& acts.len() == from + 2
    &&& acts[from] is MarkProcessed
    &&& acts[from + 1] is ReleaseLock
}

/// The text of a decimal number followed by the daily quota:
/// `used=<used>/50`.
pub open spec fn used_text(used: nat) -> Seq<char> {
    "used="@ + decimal(used) + "/"@ + decimal(DAILY_QUOTA as nat)
}

/// What one step does, case by case.
pub open spec fn step_is(old: LlmFlow, ev: LlmEvent, stage: LlmStage, acts: Seq<LlmAction>) -> bool {
    let topic = old.topic@;
    let prompt = old.prompt@;
    match (old.stage, ev) {
        (LlmStage::AwaitLock, LlmEvent::Lock { acquired }) => if acquired {
            stage is AwaitLedger && acts.len() == 1 && acts[0] is ReadLedger
        } else {
            stage is Done && acts.len() == 1 && note_is(
                acts[0],
                "LLM_BUSY "@ + topic + " (并发唤醒跳过)"@,
            )
        },
        (LlmStage::AwaitLedger, LlmEvent::Ledger { records, today }) => {
            let used = quota_used(records@, today@);
            if used >= DAILY_QUOTA {
                &&& stage is Done
                &&& acts.len() == 5
                &&& note_is(
                    acts[0],
                    "LLM_QUOTA_EXCEEDED "@ + topic + " "@ + used_text(used) + " 拒绝（当日配额耗尽）"@,
                )
                &&& record_is(acts[1], "quota_exceeded"@, used_text(used))
                &&& dead_is(acts[2], "daily quota exceeded"@)
                &&& closes(acts, 3)
            } else {
                &&& stage == LlmStage::Calling { attempt: 0 }
                &&& acts.len() == 2
                &&& record_is(acts[0], "call"@, take_spec(prompt, 60))
                &&& call_is(acts[1], model_prompt_spec(prompt))
            }
        },
        (LlmStage::Calling { attempt }, LlmEvent::Reply { result, now }) => match result {
            Ok(reply) => {
                let target = reply_target_spec(old.message, old.node@);
                &&& stage is Done
                &&& acts.len() == 5
                &&& acts[0] matches LlmAction::WriteReply { file_name, message }
                &&& file_name@ == "llm-reply-"@ + topic + ".json"@
                &&& reply_is(message, old.node@, topic, reply@, now@, target)
                &&& note_is(
                    acts[1],
                    "LLM_REPLY "@ + topic + " -> "@ + target + ": "@ + take_spec(reply@, 80),
                )
                &&& record_is(acts[2], "ok"@, take_spec(reply@, 60))
                &&& closes(acts, 3)
            },
            Err(e) => if attempt < 2 {
                &&& stage == LlmStage::Calling { attempt: (attempt + 1) as u8 }
                &&& acts.len() == 3
                &&& note_is(
                    acts[0],
                    "LLM_RETRY "@ + decimal(retry_delay(attempt) as nat) + "s err="@ + take_spec(
                        e@,
                        80,
                    ),
                )
                &&& acts[1] == LlmAction::Sleep { secs: retry_delay(attempt) }
                &&& call_is(acts[2], model_prompt_spec(prompt))
            } else {
                &&& stage is Done
                &&& acts.len() == 5
                &&& note_is(acts[0], "LLM_ERROR "@ + topic + ": "@ + e@)
                &&& record_is(acts[1], "error"@, take_spec(e@, 80))
                &&& dead_is(acts[2], e@)
                &&& closes(acts, 3)
            },
        },
        _ => stage == old.stage && acts.len() == 0,
    }
}

/// A flow just started for `message` on topic `t`, with the action that
/// takes the topic's lock.
pub open spec fn started(
    flow: LlmFlow,
    act: LlmAction,
    node: Seq<char>,
    t: Seq<char>,
    message: Json,
    raw: Seq<char>,
) -> bool {
    &&& flow.wf()
    &&& flow.stage is AwaitLock
    &&& flow.node@ == node
    &&& flow.topic@ == t
    &&& flow.message == message
    &&& flow.prompt@ == prompt_spec(message, raw)
    &&& act matches LlmAction::TakeLock { lock_file } && lock_file@ == lock_file_spec(t)
}

/// The day's quota gate, over a whole day: when the ledger holds nothing
/// counting for the day but `k` runs recorded so far (each a `call` record
/// mentioning the day, then an outcome record), the next message handed the
/// ledger is run by the model exactly when `k < 50`; otherwise it gets a
/// `quota_exceeded` record, goes to dead letters and is moved to
/// `.processed` with its lock released, without a run. So at most 50
/// messages reach the model a day, and every later one is refused.
pub proof fn lemma_day_gate(
    flow: LlmFlow,
    records: Vec<(String, Option<Json>)>,
    today: String,
    base: Seq<(String, Option<Json>)>,
    runs: Seq<((String, Option<Json>), (String, Option<Json>))>,
    stage: LlmStage,
    acts: Seq<LlmAction>,
)
    requires
        (flow.stage is AwaitLedger),
        records@ == base + run_records(runs),
        quota_used(base, today@) == 0,
        forall|i: int|
            0 <= i < runs.len() ==> counts_run((#[trigger] runs[i]).0.0@, runs[i].0.1, today@)
                && records_outcome(runs[i].1.1),
        step_is(flow, (LlmEvent::Ledger { records, today }), stage, acts),
    ensures
        runs.len() < DAILY_QUOTA ==> (count_calls(acts) == 1 && stage == (LlmStage::Calling {
            attempt: 0,
        })),
        runs.len() >= DAILY_QUOTA ==> ({
            &&& count_calls(acts) == 0
            &&& (stage is Done)
            &&& acts[1] matches LlmAction::Record { status, .. } && status@ == "quota_exceeded"@
            &&& dead_is(acts[2], "daily quota exceeded"@)
            &&& closes(acts, 3)
        }),
{
    lemma_day_of_runs(base, runs, today@);
    reveal_with_fuel(count_calls, 6);
    if runs.len() < DAILY_QUOTA {
        assert(acts.drop_last().drop_last() =~= Seq::<LlmAction>::empty());
        assert(acts.drop_last().last() == acts[0]);
        assert(acts.last() == acts[1]);
    } else {
        let a4 = acts.drop_last();
        let a3 = a4.drop_last();
        let a2 = a3.drop_last();
        let a1 = a2.drop_last();
        assert(a1.drop_last() =~= Seq::<LlmAction>::empty());
        assert(a1.last() == acts[0]);
        assert(a2.last() == acts[1]);
        assert(a3.last() == acts[2]);
        assert(a4.last() == acts[3]);
        assert(acts.last() == acts[4]);
    }
}

impl LlmFlow {
    /// Consistency of a flow: a call in flight is one of at most three, and
    /// the number of calls asked for matches the stage.
    pub open spec fn wf(&self) -> bool {
        &&& self.calls@ <= 3
        &&& match self.stage {
            LlmStage::AwaitLock => self.calls@ == 0,
            LlmStage::AwaitLedger => self.calls@ == 0,
            LlmStage::Calling { attempt } => attempt < 3 && self.calls@ == attempt + 1,
            LlmStage::Done => true,
        }
    }

    /// Starts handling the inbox file `file_name` with text `raw`, parsed as
    /// `message`: `None` when the file is not one the executor looks at or
    /// the message does not wake the model; otherwise a flow waiting for
    /// the topic's lock, and the action to take it.
    pub fn start(node: &str, file_name: &str, raw: &str, message: Json) -> (r: Option<
        (LlmFlow, LlmAction),
    >)
        ensures
            match inbox_topic_spec(file_name@) {
                Some(t) => if should_trigger_spec(message, t) {
                    r is Some && started((r->0).0, (r->0).1, node@, t, message, raw@)
                } else {
                    r is None
                },
                None => r is None,
            },
    {
        let topic = match inbox_topic(file_name) {
            Some(t) => t,
            None => return None,
        };
        if !should_trigger(&message, topic.as_str()) {
            return None;
        }
        let mut prompt = String::new();
        match message.str_member_exec("content") {
            Some(c) => crate::text::push_str(&mut prompt, c.as_str()),
            None => crate::text::push_str(&mut prompt, raw),
        }
        let lock = lock_file_name(topic.as_str());
        let mut n = String::new();
        crate::text::push_str(&mut n, node);
        let flow = LlmFlow {
            node: n,
            topic,
            message,
            prompt,
            stage: LlmStage::AwaitLock,
            calls: Ghost(0),
        };
        Some((flow, LlmAction::TakeLock { lock_file: lock }))
    }

    /// Moves the handling on by one event, and says what to do next.
    ///
    /// Lock: refused, the message is left for a later round; taken, the
    /// ledger is read. Ledger: with today's quota used up the message is
    /// refused, recorded and moved to dead letters without a model run;
    /// otherwise the call is recorded and the model runs. Reply: a text is
    /// written back as a reply to the sender; a failure is retried after
    /// 2 s and then 8 s, and the third failure is recorded and moved to dead
    /// letters. A handled message is moved to `.processed` and its lock
    /// released. Events that do not fit the stage change nothing.
    pub fn step(self, ev: LlmEvent) -> (r: (LlmFlow, Vec<LlmAction>))
        requires
            self.wf(),
            ev matches LlmEvent::Ledger { records, .. } ==> records@.len() < u32::MAX,
        ensures
            r.0.wf(),
            r.0.node == self.node,
            r.0.topic == self.topic,
            r.0.message == self.message,
            r.0.prompt == self.prompt,
            r.0.calls@ == self.calls@ + count_calls(r.1@),
            step_is(self, ev, r.0.stage, r.1@),
            !holds_lock(self.stage) && holds_lock(r.0.stage) ==> (ev matches LlmEvent::Lock {
                acquired,
            } && acquired),
            holds_lock(self.stage) && r.0.stage is Done ==> closes(r.1@, r.1@.len() - 2),
            !holds_lock(self.stage) ==> forall|i: int|
                0 <= i < r.1@.len() ==> !(#[trigger] r.1@[i] is ReleaseLock),
            r.0.calls@ <= 3,
            (ev matches LlmEvent::Ledger { records, today } && self.stage is AwaitLedger
                && quota_used(records@, today@) >= DAILY_QUOTA) ==> count_calls(r.1@) == 0,
    {
        let LlmFlow { node, topic, message, prompt, stage, calls } = self;
        let ghost old_calls = calls@;
        let (stage2, acts): (LlmStage, Vec<LlmAction>) = match (stage, ev) {
            (LlmStage::AwaitLock, LlmEvent::Lock { acquired }) => {
                if acquired {
                    let mut acts: Vec<LlmAction> = Vec::new();
                    acts.push(LlmAction::ReadLedger);
                    (LlmStage::AwaitLedger, acts)
                } else {
                    let mut v: Vec<char> = Vec::new();
                    push_text(&mut v, "LLM_BUSY ");
                    push_text(&mut v, topic.as_str());
                    push_text(&mut v, " (并发唤醒跳过)");
                    let mut acts: Vec<LlmAction> = Vec::new();
                    acts.push(LlmAction::Note { text: string_of(&v) });
                    (LlmStage::Done, acts)
                }
            },
            (LlmStage::AwaitLedger, LlmEvent::Ledger { records, today }) => {
                let (used, left) = quota(&records, today.as_str());
                if left == 0 {
                    let mut u: Vec<char> = Vec::new();
                    push_text(&mut u, "used=");
                    push_decimal(&mut u, used as u64);
                    push_text(&mut u, "/");
                    push_decimal(&mut u, DAILY_QUOTA as u64);
                    let mut v: Vec<char> = Vec::new();
                    push_text(&mut v, "LLM_QUOTA_EXCEEDED ");
                    push_text(&mut v, topic.as_str());
                    push_text(&mut v, " ");
                    crate::text::extend_chars(&mut v, &u);
                    push_text(&mut v, " 拒绝（当日配额耗尽）");
                    let mut acts: Vec<LlmAction> = Vec::new();
                    acts.push(LlmAction::Note { text: string_of(&v) });
                    acts.push(LlmAction::Record { status: crate::text::owned("quota_exceeded"), detail: string_of(&u) });
                    acts.push(LlmAction::DeadLetter { reason: crate::text::owned("daily quota exceeded") });
                    acts.push(LlmAction::MarkProcessed);
                    acts.push(LlmAction::ReleaseLock);
                    (LlmStage::Done, acts)
                } else {
                    let mut acts: Vec<LlmAction> = Vec::new();
                    acts.push(LlmAction::Record { status: crate::text::owned("call"), detail: take_chars(prompt.as_str(), 60) });
                    acts.push(LlmAction::Call { prompt: model_prompt(prompt.as_str()) });
                    (LlmStage::Calling { attempt: 0 }, acts)
                }
            },
            (LlmStage::Calling { attempt }, LlmEvent::Reply { result, now }) => {
                match result {
                    Ok(reply) => {
                        let target = reply_target(&message, node.as_str());
                        let m = reply_message(node.as_str(), topic.as_str(), reply.as_str(), now.as_str(), &message);
                        let mut v: Vec<char> = Vec::new();
                        push_text(&mut v, "LLM_REPLY ");
                        push_text(&mut v, topic.as_str());
                        push_text(&mut v, " -> ");
                        push_text(&mut v, target.as_str());
                        push_text(&mut v, ": ");
                        let head = take_chars(reply.as_str(), 80);
                        push_text(&mut v, head.as_str());
                        let mut acts: Vec<LlmAction> = Vec::new();
                        acts.push(LlmAction::WriteReply { file_name: reply_file(topic.as_str()), message: m });
                        acts.push(LlmAction::Note { text: string_of(&v) });
                        acts.push(LlmAction::Record { status: crate::text::owned("ok"), detail: take_chars(reply.as_str(), 60) });
                        acts.push(LlmAction::MarkProcessed);
                        acts.push(LlmAction::ReleaseLock);
                        (LlmStage::Done, acts)
                    },
                    Err(e) => {
                        if attempt < 2 {
                            let delay: u64 = if attempt == 0 { 2 } else { 8 };
                            let mut v: Vec<char> = Vec::new();
                            push_text(&mut v, "LLM_RETRY ");
                            push_decimal(&mut v, delay);
                            push_text(&mut v, "s err=");
                            let head = take_chars(e.as_str(), 80);
                            push_text(&mut v, head.as_str());
                            let mut acts: Vec<LlmAction> = Vec::new();
                            acts.push(LlmAction::Note { text: string_of(&v) });
                            acts.push(LlmAction::Sleep { secs: delay });
                            acts.push(LlmAction::Call { prompt: model_prompt(prompt.as_str()) });
                            (LlmStage::Calling { attempt: attempt + 1 }, acts)
                        } else {
                            let mut v: Vec<char> = Vec::new();
                            push_text(&mut v, "LLM_ERROR ");
                            push_text(&mut v, topic.as_str());
                            push_text(&mut v, ": ");
                            push_text(&mut v, e.as_str());
                            let mut acts: Vec<LlmAction> = Vec::new();
                            acts.push(LlmAction::Note { text: string_of(&v) });
                            acts.push(LlmAction::Record { status: crate::text::owned("error"), detail: take_chars(e.as_str(), 80) });
                            acts.push(LlmAction::DeadLetter { reason: e });
                            acts.push(LlmAction::MarkProcessed);
                            acts.push(LlmAction::ReleaseLock);
                            (LlmStage::Done, acts)
                        }
                    },
                }
            },
            (st, _) => (st, Vec::new()),
        };
        let ghost n = count_calls(acts@);
        proof {
            reveal_with_fuel(count_calls, 6);
        }
        let flow = LlmFlow {
            node,
            topic,
            message,
            prompt,
            stage: stage2,
            calls: Ghost((old_calls + n) as nat),
        };
        (flow, acts)
    }

    /// Whether the handling is finished.
    pub fn is_done(&self) -> (r: bool)
        ensures
            r == (self.stage is Done),
    {
        match self.stage {
            LlmStage::Done => true,
            _ => false,
        }
    }
}

} // verus!
