//! The bridge's command line: which node it serves, which blackboard it
//! talks to, how often each loop runs, and its optional identity, token and
//! collab subscriptions.

use vstd::prelude::*;
use crate::bb::{url_host, url_port, Bb};
use crate::listing::{string_views, subs_view};
use crate::logger::opt_view;
use crate::text::{chars_of, parse_unsigned, parse_unsigned_exec, same_text, split_char, split_spec,
    string_of, trim, trim_spec, views};

verus! {

broadcast use vstd::string::group_string_axioms;

/// The blackboard used when none is given.
pub const DEFAULT_BB: &'static str = "http://100.120.203.20:8792";

/// The bridge's settings.
#[derive(Clone)]
pub struct Config {
    /// The node's name on the blackboard.
    pub node: String,
    /// The blackboard client.
    pub bb: Bb,
    /// Seconds between heartbeats.
    pub hb_secs: u64,
    /// Seconds between task queue polls.
    pub queue_secs: u64,
    /// Seconds between notes polls.
    pub notes_secs: u64,
    /// The model runner is disabled.
    pub no_llm: bool,
    /// Where the node's identity file lives, when it has one.
    pub identity_path: Option<String>,
    /// The blackboard token (empty for none).
    pub token: String,
    /// Collab topic prefixes the node subscribed to.
    pub collab_subs: Option<Vec<String>>,
}

/// The settings as the command line gives them.
pub struct ArgOptions {
    pub node: Seq<char>,
    pub bb_url: Seq<char>,
    pub hb: u64,
    pub queue: u64,
    pub notes: u64,
    pub no_llm: bool,
    pub identity: Option<Seq<char>>,
    pub token: Seq<char>,
    pub subs: Option<Seq<Seq<char>>>,
}

/// The settings before any flag: node `node`, the default blackboard,
/// heartbeat every 60 s, queue every 2 s, notes every 5 s, the model
/// runner on, no identity, no token, no subscriptions.
pub open spec fn default_options() -> ArgOptions {
    ArgOptions {
        node: "node"@,
        bb_url: DEFAULT_BB@,
        hb: 60,
        queue: 2,
        notes: 5,
        no_llm: false,
        identity: None,
        token: Seq::empty(),
        subs: None,
    }
}

/// A number of seconds: the value parsed as a `u64`, or `default` when it
/// does not parse.
pub open spec fn secs_or(v: Seq<char>, default: u64) -> u64 {
    match parse_unsigned(v, u64::MAX as nat) {
        Some(n) => n as u64,
        None => default,
    }
}

/// The non-empty pieces among `pieces`, each trimmed.
pub open spec fn trimmed_nonempty(pieces: Seq<Seq<char>>) -> Seq<Seq<char>>
    decreases pieces.len(),
{
    if pieces.len() == 0 {
        Seq::empty()
    } else {
        let r = trimmed_nonempty(pieces.drop_last());
        let t = trim_spec(pieces.last());
        if t.len() > 0 {
            r.push(t)
        } else {
            r
        }
    }
}

/// A subscription list: the comma-separated pieces, trimmed, empty ones
/// dropped.
pub open spec fn sub_list(v: Seq<char>) -> Seq<Seq<char>> {
    trimmed_nonempty(split_spec(v, ','))
}

/// The flags that take the next argument as their value.
pub open spec fn takes_value(flag: Seq<char>) -> bool {
    ||| flag == "--node-id"@
    ||| flag == "--blackboard"@
    ||| flag == "--hb"@
    ||| flag == "--queue"@
    ||| flag == "--notes"@
    ||| flag == "--identity"@
    ||| flag == "--token"@
    ||| flag == "--collab-subs"@
}

/// The settings after a value flag with its value.
pub open spec fn with_value(o: ArgOptions, flag: Seq<char>, v: Seq<char>) -> ArgOptions {
    if flag == "--node-id"@ {
        ArgOptions { node: v, ..o }
    } else if flag == "--blackboard"@ {
        ArgOptions { bb_url: v, ..o }
    } else if flag == "--hb"@ {
        ArgOptions { hb: secs_or(v, 60), ..o }
    } else if flag == "--queue"@ {
        ArgOptions { queue: secs_or(v, 2), ..o }
    } else if flag == "--notes"@ {
        ArgOptions { notes: secs_or(v, 5), ..o }
    } else if flag == "--identity"@ {
        ArgOptions { identity: Some(v), ..o }
    } else if flag == "--token"@ {
        ArgOptions { token: v, ..o }
    } else {
        ArgOptions { subs: Some(sub_list(v)), ..o }
    }
}

/// The settings after reading the arguments from position `i` on: a value
/// flag takes the next argument (and is ignored when it is the last one),
/// `--no-llm` switches the model runner off, anything else is skipped; a
/// later flag overrides an earlier one.
pub open spec fn read_args(args: Seq<Seq<char>>, i: int, o: ArgOptions) -> ArgOptions
    decreases args.len() + 1 - i,
{
    if i < 0 || i >= args.len() {
        o
    } else if args[i] == "--no-llm"@ {
        read_args(args, i + 1, ArgOptions { no_llm: true, ..o })
    } else if takes_value(args[i]) {
        read_args(
            args,
            i + 2,
            if i + 1 < args.len() {
                with_value(o, args[i], args[i + 1])
            } else {
                o
            },
        )
    } else {
        read_args(args, i + 1, o)
    }
}

/// The settings a command line gives (its first argument is the program).
pub open spec fn options_of(args: Seq<Seq<char>>) -> ArgOptions {
    read_args(args, 1, default_options())
}

/// The configuration holds the settings, its blackboard client built from
/// the URL and the token.
pub open spec fn config_is(c: Config, o: ArgOptions) -> bool {
    &&& c.node@ == o.node
    &&& c.bb.host@ == url_host(o.bb_url)
    &&& c.bb.port == url_port(o.bb_url)
    &&& c.bb.token@ == o.token
    &&& c.hb_secs == o.hb
    &&& c.queue_secs == o.queue
    &&& c.notes_secs == o.notes
    &&& c.no_llm == o.no_llm
    &&& opt_view(c.identity_path) == o.identity
    &&& c.token@ == o.token
    &&& subs_view(c.collab_subs) == o.subs
}

/// The interval flags are distinct flags.
proof fn lemma_flags_distinct()
    ensures
        "--hb"@ != "--queue"@,
        "--hb"@ != "--notes"@,
        "--queue"@ != "--notes"@,
        "--hb"@ != "--no-llm"@,
        "--queue"@ != "--no-llm"@,
        "--notes"@ != "--no-llm"@,
        "--queue"@ != "--node-id"@,
        "--queue"@ != "--blackboard"@,
        "--queue"@ != "--identity"@,
        "--queue"@ != "--token"@,
        "--queue"@ != "--collab-subs"@,
        "--notes"@ != "--node-id"@,
        "--notes"@ != "--blackboard"@,
        "--notes"@ != "--identity"@,
        "--notes"@ != "--token"@,
        "--notes"@ != "--collab-subs"@,
        "--hb"@ != "--node-id"@,
        "--hb"@ != "--blackboard"@,
        "--hb"@ != "--identity"@,
        "--hb"@ != "--token"@,
        "--hb"@ != "--collab-subs"@,
{
    reveal_strlit("--hb");
    reveal_strlit("--queue");
    reveal_strlit("--notes");
    reveal_strlit("--no-llm");
    reveal_strlit("--node-id");
    reveal_strlit("--blackboard");
    reveal_strlit("--identity");
    reveal_strlit("--token");
    reveal_strlit("--collab-subs");
    assert("--hb"@.len() == 4);
    assert("--no-llm"@.len() == 8 && "--node-id"@.len() == 9 && "--blackboard"@.len() == 12);
    assert("--identity"@.len() == 10 && "--collab-subs"@.len() == 13 && "--token"@.len() == 7);
    assert("--queue"@[2] != "--notes"@[2]);
    assert("--notes"@[4] != "--node-id"@[4]);
    assert("--notes"@[4] != "--no-llm"@[4]);
    assert("--queue"@[2] != "--token"@[2]);
    assert("--notes"@[2] != "--token"@[2]);
}

/// Each interval flag sets its own interval and no other: with the command
/// line `p --hb a --queue b --notes c`, where `a`, `b`, `c` read as the
/// numbers `x`, `y`, `z`, the heartbeat runs every `x`, the queue every `y`
/// and the notes every `z` seconds, and everything else keeps its default.
pub proof fn lemma_interval_flags(
    p: Seq<char>,
    a: Seq<char>,
    b: Seq<char>,
    c: Seq<char>,
    x: nat,
    y: nat,
    z: nat,
    cfg: Config,
)
    requires
        parse_unsigned(a, u64::MAX as nat) == Some(x),
        parse_unsigned(b, u64::MAX as nat) == Some(y),
        parse_unsigned(c, u64::MAX as nat) == Some(z),
        config_is(cfg, options_of(seq![p, "--hb"@, a, "--queue"@, b, "--notes"@, c])),
    ensures
        cfg.hb_secs == x,
        cfg.queue_secs == y,
        cfg.notes_secs == z,
        cfg.node@ == "node"@,
        !cfg.no_llm,
        cfg.identity_path is None,
        cfg.token@.len() == 0,
        cfg.collab_subs is None,
{
    lemma_flags_distinct();
    let args = seq![p, "--hb"@, a, "--queue"@, b, "--notes"@, c];
    reveal_with_fuel(read_args, 5);
    let o0 = default_options();
    let o1 = with_value(o0, "--hb"@, a);
    let o2 = with_value(o1, "--queue"@, b);
    let o3 = with_value(o2, "--notes"@, c);
    assert(args[1] == "--hb"@ && args[3] == "--queue"@ && args[5] == "--notes"@);
    assert(read_args(args, 7, o3) == o3);
    assert(read_args(args, 5, o2) == read_args(args, 7, o3));
    assert(read_args(args, 3, o1) == read_args(args, 5, o2));
    assert(read_args(args, 1, o0) == read_args(args, 3, o1));
}

/// A single interval flag: `p --queue d` with `d` reading as `n` runs the
/// queue every `n` seconds and keeps the heartbeat at 60 and the notes at
/// 5 seconds; a value that does not read as a number keeps the default 2.
pub proof fn lemma_queue_flag_alone(p: Seq<char>, d: Seq<char>, cfg: Config)
    requires
        config_is(cfg, options_of(seq![p, "--queue"@, d])),
    ensures
        cfg.queue_secs == match parse_unsigned(d, u64::MAX as nat) {
            Some(n) => n,
            None => 2,
        },
        cfg.notes_secs == 5,
        cfg.hb_secs == 60,
{
    lemma_flags_distinct();
    let args = seq![p, "--queue"@, d];
    reveal_with_fuel(read_args, 3);
    let o1 = with_value(default_options(), "--queue"@, d);
    assert(args[1] == "--queue"@);
    assert(read_args(args, 3, o1) == o1);
    assert(read_args(args, 1, default_options()) == read_args(args, 3, o1));
}

/// A single interval flag: `p --notes d` sets only the notes interval.
pub proof fn lemma_notes_flag_alone(p: Seq<char>, d: Seq<char>, cfg: Config)
    requires
        config_is(cfg, options_of(seq![p, "--notes"@, d])),
    ensures
        cfg.notes_secs == match parse_unsigned(d, u64::MAX as nat) {
            Some(n) => n,
            None => 5,
        },
        cfg.queue_secs == 2,
        cfg.hb_secs == 60,
{
    lemma_flags_distinct();
    let args = seq![p, "--notes"@, d];
    reveal_with_fuel(read_args, 3);
    let o1 = with_value(default_options(), "--notes"@, d);
    assert(args[1] == "--notes"@);
    assert(read_args(args, 3, o1) == o1);
    assert(read_args(args, 1, default_options()) == read_args(args, 3, o1));
}

/// A single interval flag: `p --hb d` sets only the heartbeat interval.
pub proof fn lemma_hb_flag_alone(p: Seq<char>, d: Seq<char>, cfg: Config)
    requires
        config_is(cfg, options_of(seq![p, "--hb"@, d])),
    ensures
        cfg.hb_secs == match parse_unsigned(d, u64::MAX as nat) {
            Some(n) => n,
            None => 60,
        },
        cfg.queue_secs == 2,
        cfg.notes_secs == 5,
{
    lemma_flags_distinct();
    let args = seq![p, "--hb"@, d];
    reveal_with_fuel(read_args, 3);
    let o1 = with_value(default_options(), "--hb"@, d);
    assert(args[1] == "--hb"@);
    assert(read_args(args, 3, o1) == o1);
    assert(read_args(args, 1, default_options()) == read_args(args, 3, o1));
}

/// Reads a subscription list.
pub fn parse_subs(v: &str) -> (r: Vec<String>)
    ensures
        string_views(r@) == sub_list(v@),
{
    let chars = chars_of(v);
    let pieces = split_char(&chars, ',');
    let ghost pv = views(pieces@);
    let mut out: Vec<String> = Vec::new();
    let mut i: usize = 0;
    proof {
        assert(pv.take(0) =~= Seq::<Seq<char>>::empty());
        assert(string_views(out@) =~= Seq::<Seq<char>>::empty());
    }
    while i < pieces.len()
        invariant
            i <= pieces.len(),
            pv == views(pieces@),
            pv == split_spec(v@, ','),
            string_views(out@) == trimmed_nonempty(pv.take(i as int)),
        decreases pieces.len() - i,
    {
        let t = trim(&pieces[i]);
        proof {
            assert(pv.take(i + 1).drop_last() =~= pv.take(i as int));
            assert(pv[i as int] == pieces@[i as int]@);
        }
        if t.len() > 0 {
            let ghost before = out@;
            out.push(string_of(&t));
            proof {
                assert(string_views(out@) =~= string_views(before).push(t@));
            }
        }
        i = i + 1;
    }
    proof {
        assert(pv.take(pieces.len() as int) =~= pv);
    }
    out
}

/// A number of seconds from a flag's value, or `default`.
fn secs_value(v: &str, default: u64) -> (r: u64)
    ensures
        r == secs_or(v@, default),
{
    let c = chars_of(v);
    match parse_unsigned_exec(&c, u64::MAX) {
        Some(n) => n,
        None => default,
    }
}

/// Reads the bridge's command line (the program name first).
pub fn parse_args(args: &Vec<String>) -> (c: Config)
    ensures
        config_is(c, options_of(args@.map_values(|a: String| a@))),
{
    let ghost va = args@.map_values(|a: String| a@);
    let mut node = crate::text::owned("node");
    let mut bb_url = crate::text::owned(DEFAULT_BB);
    let mut hb: u64 = 60;
    let mut queue: u64 = 2;
    let mut notes: u64 = 5;
    let mut no_llm = false;
    let mut identity: Option<String> = None;
    let mut token = String::new();
    let mut subs: Option<Vec<String>> = None;
    let mut i: usize = 1;
    proof {
        assert(va.len() == args.len());
    }
    while i < args.len()
        invariant
            1 <= i,
            va == args@.map_values(|a: String| a@),
            va.len() == args.len(),
            options_of(va) == read_args(
                va,
                i as int,
                ArgOptions {
                    node: node@,
                    bb_url: bb_url@,
                    hb,
                    queue,
                    notes,
                    no_llm,
                    identity: opt_view(identity),
                    token: token@,
                    subs: subs_view(subs),
                },
            ),
        decreases args.len() - i,
    {
        let a = args[i].as_str();
        proof {
            assert(va[i as int] == args@[i as int]@);
        }
        let more = i + 1 < args.len();
        if same_text(a, "--no-llm") {
            no_llm = true;
            i = i + 1;
        } else if same_text(a, "--node-id") || same_text(a, "--blackboard") || same_text(a, "--hb")
            || same_text(a, "--queue") || same_text(a, "--notes") || same_text(a, "--identity")
            || same_text(a, "--token") || same_text(a, "--collab-subs") {
            if more {
                let v = args[i + 1].as_str();
                proof {
                    assert(va[i + 1] == args@[i + 1]@);
                }
                if same_text(a, "--node-id") {
                    node = crate::text::owned(v);
                } else if same_text(a, "--blackboard") {
                    bb_url = crate::text::owned(v);
                } else if same_text(a, "--hb") {
                    hb = secs_value(v, 60);
                } else if same_text(a, "--queue") {
                    queue = secs_value(v, 2);
                } else if same_text(a, "--notes") {
                    notes = secs_value(v, 5);
                } else if same_text(a, "--identity") {
                    identity = Some(crate::text::owned(v));
                } else if same_text(a, "--token") {
                    token = crate::text::owned(v);
                } else {
                    subs = Some(parse_subs(v));
                }
            }
            if more {
                i = i + 2;
            } else {
                i = i + 1;
                proof {
                    assert(read_args(va, i as int, ArgOptions {
                        node: node@,
                        bb_url: bb_url@,
                        hb,
                        queue,
                        notes,
                        no_llm,
                        identity: opt_view(identity),
                        token: token@,
                        subs: subs_view(subs),
                    }) == read_args(va, i + 1, ArgOptions {
                        node: node@,
                        bb_url: bb_url@,
                        hb,
                        queue,
                        notes,
                        no_llm,
                        identity: opt_view(identity),
                        token: token@,
                        subs: subs_view(subs),
                    }));
                }
            }
        } else {
            i = i + 1;
        }
    }
    let bb = Bb::with_token(bb_url.as_str(), token.as_str());
    Config {
        node,
        bb,
        hb_secs: hb,
        queue_secs: queue,
        notes_secs: notes,
        no_llm,
        identity_path: identity,
        token,
        collab_subs: subs,
    }
}

} // verus!
