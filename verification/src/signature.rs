//! Message signing with Ed25519 keys kept in the node's identity file.
//!
//! The keys and signatures come from the `openssl` command line, which the
//! caller runs; this module decides where the identity lives, what of it is
//! kept, how command results read, and how signatures are encoded.

use vstd::prelude::*;
use crate::exec::Platform;
use crate::json::{member_spec, text, Json};
use crate::text::{contains, contains_spec, lossy_text, push_text, string_of, utf8_lossy};

verus! {

broadcast use vstd::string::group_string_axioms;

/// The home directory: `$HOME`, or `/Users/unknown` when it is unset.
pub fn home(env_home: Option<String>) -> (r: String)
    ensures
        r@ == match env_home {
            Some(h) => h@,
            None => "/Users/unknown"@,
        },
{
    match env_home {
        Some(h) => h,
        None => crate::text::owned("/Users/unknown"),
    }
}

/// `base` joined with the relative path `rel` (`Path::join`): a separator
/// goes between them unless `base` is empty or already ends with one (`/`,
/// or on Windows also `\`); the separator added is `\` on Windows, `/`
/// elsewhere.
pub open spec fn join_spec(platform: Platform, base: Seq<char>, rel: Seq<char>) -> Seq<char> {
    let ends_sep = base.len() > 0 && (base.last() == '/' || (platform == Platform::Windows
        && base.last() == '\\'));
    if base.len() == 0 || ends_sep {
        base + rel
    } else if platform == Platform::Windows {
        base + seq!['\\'] + rel
    } else {
        base + seq!['/'] + rel
    }
}

/// Joins a relative path onto `base`.
pub fn join_path(platform: Platform, base: &str, rel: &str) -> (r: String)
    ensures
        r@ == join_spec(platform, base@, rel@),
{
    let b = crate::text::chars_of(base);
    let mut v = crate::text::copy_chars(&b);
    if b.len() > 0 {
        let last = b[b.len() - 1];
        let ends_sep = last == '/' || (platform == Platform::Windows && last == '\\');
        if !ends_sep {
            if platform == Platform::Windows {
                v.push('\\');
            } else {
                v.push('/');
            }
        }
    }
    push_text(&mut v, rel);
    proof {
        assert(v@ =~= join_spec(platform, base@, rel@));
    }
    string_of(&v)
}

/// The identity file under a home directory: `.dsh/identity.json`.
pub fn identity_path(platform: Platform, home: &str) -> (r: String)
    ensures
        r@ == join_spec(platform, home@, ".dsh/identity.json"@),
{
    join_path(platform, home, ".dsh/identity.json")
}

/// The `openssl` to run: OpenSSL 3 from Homebrew (Apple silicon, then
/// Intel) when installed, since the system LibreSSL lacks Ed25519;
/// otherwise whatever `openssl` is on `PATH`.
pub fn openssl_bin(arm_brew_exists: bool, intel_brew_exists: bool) -> (r: &'static str)
    ensures
        r@ == if arm_brew_exists {
            "/opt/homebrew/opt/openssl@3/bin/openssl"@
        } else if intel_brew_exists {
            "/usr/local/opt/openssl@3/bin/openssl"@
        } else {
            "openssl"@
        },
{
    proof {
        reveal_strlit("/opt/homebrew/opt/openssl@3/bin/openssl");
        reveal_strlit("/usr/local/opt/openssl@3/bin/openssl");
        reveal_strlit("openssl");
    }
    if arm_brew_exists {
        "/opt/homebrew/opt/openssl@3/bin/openssl"
    } else if intel_brew_exists {
        "/usr/local/opt/openssl@3/bin/openssl"
    } else {
        "openssl"
    }
}

/// The key pair stored in an identity: both `ed25519_private` and
/// `ed25519_public` must be strings.
pub open spec fn stored_keys_spec(identity: Json) -> Option<(Seq<char>, Seq<char>)> {
    match (identity.str_member("ed25519_private"@), identity.str_member("ed25519_public"@)) {
        (Some(p), Some(q)) => Some((p, q)),
        _ => None,
    }
}

/// The private and public key PEM stored in an identity, if both are.
pub fn stored_keys(identity: &Json) -> (r: Option<(String, String)>)
    ensures
        match r {
            Some(k) => stored_keys_spec(*identity) == Some((k.0@, k.1@)),
            None => stored_keys_spec(*identity) is None,
        },
{
    match (identity.str_member_exec("ed25519_private"), identity.str_member_exec("ed25519_public")) {
        (Some(p), Some(q)) => {
            let mut a = String::new();
            crate::text::push_str(&mut a, p.as_str());
            let mut b = String::new();
            crate::text::push_str(&mut b, q.as_str());
            Some((a, b))
        },
        _ => None,
    }
}

/// The identity with a new key pair: the stored identity (a new object
/// when there is none or it is not an object) with `ed25519_private`,
/// `ed25519_public` and `signature_scheme: "ed25519"` set, its other
/// members kept.
pub fn with_keys(identity: Option<Json>, private_pem: &str, public_pem: &str) -> (r: Json)
    ensures
        r is Object,
        r.str_member("ed25519_private"@) == Some(private_pem@),
        r.str_member("ed25519_public"@) == Some(public_pem@),
        r.str_member("signature_scheme"@) == Some("ed25519"@),
        forall|k: Seq<char>|
            k != "ed25519_private"@ && k != "ed25519_public"@ && k != "signature_scheme"@
                ==> #[trigger] r.get_spec(k) == match identity {
                Some(v) => v.get_spec(k),
                None => None,
            },
{
    let ghost id0 = identity;
    let mut f: Vec<(String, Json)> = match identity {
        Some(Json::Object(g)) => g,
        _ => Vec::new(),
    };
    let ghost f0 = f@;
    let a = text(private_pem);
    let b = text(public_pem);
    let c = text("ed25519");
    let ghost (va, vb, vc) = (a, b, c);
    crate::json::insert_member(&mut f, "ed25519_private", a);
    let ghost f1 = f@;
    crate::json::insert_member(&mut f, "ed25519_public", b);
    let ghost f2 = f@;
    crate::json::insert_member(&mut f, "signature_scheme", c);
    proof {
        reveal_strlit("ed25519_private");
        reveal_strlit("ed25519_public");
        reveal_strlit("signature_scheme");
        reveal_strlit("ed25519");
        assert("ed25519_private"@.len() != "signature_scheme"@.len());
        assert("ed25519_public"@.len() != "signature_scheme"@.len());
        assert("ed25519_private"@ != "ed25519_public"@) by {
            assert("ed25519_private"@[9] != "ed25519_public"@[9]);
        }
        assert(member_spec(f@, "ed25519_private"@) == member_spec(f2, "ed25519_private"@));
        assert(member_spec(f2, "ed25519_private"@) == member_spec(f1, "ed25519_private"@));
        assert(member_spec(f@, "ed25519_public"@) == member_spec(f2, "ed25519_public"@));
        assert forall|k: Seq<char>|
            k != "ed25519_private"@ && k != "ed25519_public"@ && k != "signature_scheme"@ implies #[trigger] member_spec(f@, k) == member_spec(f0, k) by {
            assert(member_spec(f@, k) == member_spec(f2, k));
            assert(member_spec(f2, k) == member_spec(f1, k));
        }
        if !(id0 matches Some(v) && v is Object) {
            assert(f0 =~= Seq::<(String, Json)>::empty());
        }
    }
    Json::Object(f)
}

/// What an `openssl` run that prints text gives: on failure an error naming
/// the operation and what it printed to standard error, otherwise its
/// standard output.
pub fn openssl_output(op: &str, success: bool, stdout: &[u8], stderr: &[u8]) -> (r: Result<
    String,
    String,
>)
    ensures
        success ==> (r matches Ok(t) && t@ == lossy_text(stdout@)),
        !success ==> (r matches Err(e) && e@ == "openssl "@ + op@ + " failed: "@ + lossy_text(
            stderr@,
        )),
{
    if !success {
        let err = utf8_lossy(stderr);
        let mut v: Vec<char> = Vec::new();
        push_text(&mut v, "openssl ");
        push_text(&mut v, op);
        push_text(&mut v, " failed: ");
        push_text(&mut v, err.as_str());
        return Err(string_of(&v));
    }
    Ok(utf8_lossy(stdout))
}

/// What a signing run gives: on failure an error with what it printed to
/// standard error, otherwise the signature bytes in base64.
pub fn sign_outcome(success: bool, stdout: &[u8], stderr: &[u8]) -> (r: Result<String, String>)
    ensures
        success ==> (r matches Ok(t) && t@ == crate::base64::encode_spec(stdout@)),
        !success ==> (r matches Err(e) && e@ == "openssl sign failed: "@ + lossy_text(stderr@)),
{
    if !success {
        let err = utf8_lossy(stderr);
        let mut v: Vec<char> = Vec::new();
        push_text(&mut v, "openssl sign failed: ");
        push_text(&mut v, err.as_str());
        return Err(string_of(&v));
    }
    Ok(crate::base64::base64_encode(stdout))
}

/// An error from starting a step: `<step>: <detail>`.
pub fn step_error(step: &str, detail: &str) -> (r: String)
    ensures
        r@ == step@ + ": "@ + detail@,
{
    let mut v: Vec<char> = Vec::new();
    push_text(&mut v, step);
    push_text(&mut v, ": ");
    push_text(&mut v, detail);
    string_of(&v)
}

/// A verification run accepts the signature when it succeeds and reports
/// `Verified`.
pub fn verify_outcome(success: bool, stdout: &[u8]) -> (r: bool)
    ensures
        r == (success && contains_spec(lossy_text(stdout@), "Verified"@)),
{
    let out = utf8_lossy(stdout);
    success && contains(out.as_str(), "Verified")
}

/// A scratch file name for this process: `<stem>-<pid>.<ext>`.
pub fn temp_file_name(stem: &str, pid: u32, ext: &str) -> (r: String)
    ensures
        r@ == stem@ + "-"@ + crate::text::decimal(pid as nat) + "."@ + ext@,
{
    let mut v: Vec<char> = Vec::new();
    push_text(&mut v, stem);
    push_text(&mut v, "-");
    crate::text::push_decimal(&mut v, pid as u64);
    push_text(&mut v, ".");
    push_text(&mut v, ext);
    string_of(&v)
}

/// A `sign` subcommand.
pub enum SignCommand {
    /// Print the usage.
    Help,
    /// Make sure the identity (at `identity`, or the default) has keys.
    Gen { identity: Option<String> },
    /// Check a signature.
    Verify { public_pem: String, body: String, signature: String },
    /// Sign a message body with the default identity's key.
    Sign { body: String },
}

/// The identity path given to `gen` by `--identity <path>` (the last one
/// counts), scanning from position `i`.
pub open spec fn gen_identity_from(args: Seq<Seq<char>>, i: int, found: Option<Seq<char>>) -> Option<
    Seq<char>,
>
    decreases args.len() - i,
{
    if i >= args.len() || i < 0 {
        found
    } else if args[i] == "--identity"@ && i + 1 < args.len() {
        gen_identity_from(args, i + 2, Some(args[i + 1]))
    } else {
        gen_identity_from(args, i + 1, found)
    }
}

/// How the `sign` arguments read: nothing is help; `gen` takes an optional
/// `--identity <path>`; `verify` with three more arguments checks a
/// signature; anything else is a body to sign.
pub open spec fn sign_command_is(c: SignCommand, args: Seq<Seq<char>>) -> bool {
    if args.len() == 0 {
        c is Help
    } else if args[0] == "gen"@ {
        c matches SignCommand::Gen { identity } && match gen_identity_from(args, 1, None) {
            Some(p) => identity matches Some(q) && q@ == p,
            None => identity is None,
        }
    } else if args[0] == "verify"@ && args.len() >= 4 {
        c matches SignCommand::Verify { public_pem, body, signature } && public_pem@ == args[1]
            && body@ == args[2] && signature@ == args[3]
    } else {
        c matches SignCommand::Sign { body } && body@ == args[0]
    }
}

/// Reads the `sign` subcommand's arguments.
pub fn parse_sign_command(args: &Vec<String>) -> (c: SignCommand)
    ensures
        sign_command_is(c, args@.map_values(|a: String| a@)),
{
    let ghost va = args@.map_values(|a: String| a@);
    if args.len() == 0 {
        return SignCommand::Help;
    }
    proof {
        assert(va[0] == args@[0]@);
    }
    if crate::text::same_text(args[0].as_str(), "gen") {
        let mut identity: Option<String> = None;
        let mut i: usize = 1;
        while i < args.len()
            invariant
                1 <= i <= args.len() + 1,
                va == args@.map_values(|a: String| a@),
                gen_identity_from(va, 1, None) == gen_identity_from(
                    va,
                    i as int,
                    match identity {
                        Some(s) => Some(s@),
                        None => None,
                    },
                ),
            decreases args.len() + 1 - i,
        {
            proof {
                assert(va[i as int] == args@[i as int]@);
            }
            if crate::text::same_text(args[i].as_str(), "--identity") && i + 1 < args.len() {
                proof {
                    assert(va[i + 1] == args@[i + 1]@);
                }
                let mut p = String::new();
                crate::text::push_str(&mut p, args[i + 1].as_str());
                identity = Some(p);
                i = i + 2;
            } else {
                i = i + 1;
            }
        }
        return SignCommand::Gen { identity };
    }
    if crate::text::same_text(args[0].as_str(), "verify") && args.len() >= 4 {
        proof {
            assert(va[1] == args@[1]@);
            assert(va[2] == args@[2]@);
            assert(va[3] == args@[3]@);
        }
        let mut a = String::new();
        crate::text::push_str(&mut a, args[1].as_str());
        let mut b = String::new();
        crate::text::push_str(&mut b, args[2].as_str());
        let mut s = String::new();
        crate::text::push_str(&mut s, args[3].as_str());
        return SignCommand::Verify { public_pem: a, body: b, signature: s };
    }
    let mut b = String::new();
    crate::text::push_str(&mut b, args[0].as_str());
    SignCommand::Sign { body: b }
}

} // verus!
