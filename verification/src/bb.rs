//! Blackboard HTTP client: the address it talks to, the requests it sends
//! and how it reads the replies.
//!
//! The bytes travel over a plain TCP connection that the caller opens; this
//! module decides what is written and what a reply means.

use vstd::prelude::*;
use vstd::utf8::encode_utf8;
use crate::json::Json;
use crate::text::{
    chars_of, decimal, decimal_string, find_exec, find_spec, lines, lines_spec, parse_unsigned,
    parse_unsigned_exec, push_decimal, push_text, rfind_char, rfind_spec, slice_from, slice_range,
    string_of, trim_end_matches, trim_end_matches_spec, trim_start_matches, trim_start_matches_spec,
    words, words_spec, extend_chars, views,
};

verus! {

broadcast use vstd::string::group_string_axioms;

/// The port used when the blackboard URL names none (or an unreadable one).
pub const DEFAULT_PORT: u16 = 8792;

/// A blackboard endpoint: where to connect and the token to present.
#[derive(Clone)]
pub struct Bb {
    pub host: String,
    pub port: u16,
    pub token: String,
}

/// `url` without its `http://` prefixes and trailing slashes.
pub open spec fn authority_spec(url: Seq<char>) -> Seq<char> {
    trim_end_matches_spec(trim_start_matches_spec(url, "http://"@), seq!['/'])
}

/// The host named by a blackboard URL: what precedes the last `:` of its
/// authority, or the whole authority.
pub open spec fn url_host(url: Seq<char>) -> Seq<char> {
    let u = authority_spec(url);
    match rfind_spec(u, ':') {
        Some(i) => u.take(i),
        None => u,
    }
}

/// The port named by a blackboard URL: the number after the last `:` of
/// its authority when it reads as a `u16`, otherwise 8792.
pub open spec fn url_port(url: Seq<char>) -> u16 {
    let u = authority_spec(url);
    match rfind_spec(u, ':') {
        Some(i) => match parse_unsigned(u.skip(i + 1), 65535) {
            Some(n) => n as u16,
            None => DEFAULT_PORT,
        },
        None => DEFAULT_PORT,
    }
}

/// The token header line, or nothing for an empty token.
pub open spec fn token_header(token: Seq<char>) -> Seq<char> {
    if token.len() == 0 {
        Seq::empty()
    } else {
        "X-Blackboard-Token: "@ + token + "\r\n"@
    }
}

/// The HTTP/1.1 request text for `method path` with a JSON body: host line,
/// optional token header, content type, the body's length in UTF-8 bytes,
/// `Connection: close`, a blank line, then the body.
pub open spec fn request_spec(
    method: Seq<char>,
    path: Seq<char>,
    host: Seq<char>,
    port: u16,
    token: Seq<char>,
    body: Seq<char>,
) -> Seq<char> {
    method + " "@ + path + " HTTP/1.1\r\nHost: "@ + host + ":"@ + decimal(port as nat) + "\r\n"@
        + token_header(token) + "Content-Type: application/json\r\nContent-Length: "@ + decimal(
        encode_utf8(body).len(),
    ) + "\r\nConnection: close\r\n\r\n"@ + body
}

/// Text without carriage returns or line feeds.
pub open spec fn no_line_break(s: Seq<char>) -> bool {
    forall|i: int| 0 <= i < s.len() ==> s[i] != '\r' && s[i] != '\n'
}

/// A blank line (`\r\n\r\n`) starts at position `j` of `s`.
pub open spec fn blank_at(s: Seq<char>, j: int) -> bool {
    &&& 0 <= j
    &&& j + 3 < s.len()
    &&& s[j] == '\r'
    &&& s[j + 1] == '\n'
    &&& s[j + 2] == '\r'
    &&& s[j + 3] == '\n'
}

/// Text in which no blank line starts.
pub open spec fn no_blank_line(s: Seq<char>) -> bool {
    forall|j: int| !blank_at(s, j)
}

/// A line-break character.
pub open spec fn is_break(c: char) -> bool {
    c == '\r' || c == '\n'
}

/// Two texts without blank lines make none when joined, unless line breaks
/// meet at the seam.
proof fn lemma_join_no_blank(a: Seq<char>, b: Seq<char>)
    requires
        no_blank_line(a),
        no_blank_line(b),
        a.len() == 0 || b.len() == 0 || !is_break(a.last()) || !is_break(b[0]),
    ensures
        no_blank_line(a + b),
{
    let s = a + b;
    assert forall|j: int| !blank_at(s, j) by {
        if blank_at(s, j) {
            if j + 3 < a.len() {
                assert(blank_at(a, j));
            } else if j >= a.len() {
                assert(blank_at(b, j - a.len()));
            } else {
                assert(s[a.len() - 1] == a.last());
                assert(s[a.len() as int] == b[0]);
            }
        }
    }
}

/// Text without line breaks has no blank line.
proof fn lemma_no_break_no_blank(s: Seq<char>)
    requires
        no_line_break(s),
    ensures
        no_blank_line(s),
{
    assert forall|j: int| !blank_at(s, j) by {
        if 0 <= j < s.len() {
            assert(s[j] != '\r');
        }
    }
}

/// The decimal numeral of a number is a non-empty run of digits.
proof fn lemma_decimal_digits(n: nat)
    ensures
        decimal(n).len() > 0,
        forall|i: int| 0 <= i < decimal(n).len() ==> '0' <= #[trigger] decimal(n)[i] <= '9',
    decreases n,
{
    if n >= 10 {
        lemma_decimal_digits(n / 10);
        let d = decimal(n / 10);
        let last = crate::text::digit_char((n % 10) as int);
        assert(decimal(n) == d + seq![last]);
        assert forall|i: int| 0 <= i < decimal(n).len() implies '0' <= #[trigger] decimal(n)[i] <= '9' by {
            if i < d.len() {
                assert(decimal(n)[i] == d[i]);
            }
        }
    }
}

/// A decimal numeral reads back as its number.
proof fn lemma_decimal_value(n: nat)
    ensures
        crate::text::digits_value(decimal(n)) == n,
    decreases n,
{
    let last = crate::text::digit_char((n % 10) as int);
    assert(last as int == (n % 10) + 48);
    assert(((last as int - 48) as nat) == n % 10);
    if n >= 10 {
        lemma_decimal_value(n / 10);
        let d = decimal(n / 10);
        let s = d + seq![last];
        assert(decimal(n) == s);
        assert(s.drop_last() =~= d);
        assert(s.last() == last);
        assert(s.len() > 0);
        assert(crate::text::digits_value(s) == crate::text::digits_value(s.drop_last()) * 10 + ((
        s.last() as int - 48) as nat));
        assert(crate::text::digits_value(s) == (n / 10) * 10 + n % 10);
        assert(n == (n / 10) * 10 + n % 10) by (nonlinear_arith);
    } else {
        let s = seq![last];
        assert(decimal(n) == s);
        assert(s.drop_last() =~= Seq::<char>::empty());
        assert(crate::text::digits_value(s) == crate::text::digits_value(s.drop_last()) * 10 + ((
        s.last() as int - 48) as nat));
        assert(n % 10 == n);
    }
}

/// A decimal numeral of a number up to `max` parses as that number.
proof fn lemma_parse_decimal(n: nat, max: nat)
    requires
        n <= max,
    ensures
        parse_unsigned(decimal(n), max) == Some(n),
{
    lemma_decimal_digits(n);
    lemma_decimal_value(n);
    let d = decimal(n);
    assert(d[0] != '+');
    assert(crate::text::unsigned_digits(d) == d);
    assert(forall|i: int| 0 <= i < d.len() ==> crate::text::is_digit(#[trigger] d[i]));
}

/// Text after the last `c` does not move it: appending text without `c`
/// keeps the position of the last `c`.
proof fn lemma_rfind_append(a: Seq<char>, b: Seq<char>, c: char)
    requires
        forall|i: int| 0 <= i < b.len() ==> b[i] != c,
    ensures
        rfind_spec(a + b, c) == rfind_spec(a, c),
    decreases b.len(),
{
    if b.len() == 0 {
        assert(a + b =~= a);
    } else {
        lemma_rfind_append(a, b.drop_last(), c);
        assert((a + b).drop_last() =~= a + b.drop_last());
        assert((a + b).last() == b.last());
    }
}

/// The endpoint of `http://<h>:<n>`, for a host `h` without `:` and a port
/// number `n` written in decimal, is host `h` and port `n`: every port
/// number a `u16` holds is kept.
pub proof fn lemma_url_with_port(h: Seq<char>, n: nat)
    requires
        n <= 65535,
        forall|i: int| 0 <= i < h.len() ==> h[i] != ':',
    ensures
        url_port("http://"@ + h + ":"@ + decimal(n)) == n,
        url_host("http://"@ + h + ":"@ + decimal(n)) == h,
{
    reveal_strlit("http://");
    reveal_strlit(":");
    let d = decimal(n);
    lemma_decimal_digits(n);
    let r = h + ":"@ + d;
    let url = "http://"@ + r;
    assert(url =~= "http://"@ + h + ":"@ + d);
    // The URL has one `http://` in front.
    assert(!"http://"@.is_prefix_of(r)) by {
        if "http://"@.is_prefix_of(r) {
            assert(r[4] == "http://"@[4]);
            if h.len() > 4 {
                assert(r[4] == h[4]);
            } else if h.len() < 4 {
                assert(r[h.len() as int] == ':');
                assert(r[h.len() as int] == "http://"@[h.len() as int]);
            } else {
                assert(r[5] == d[0]);
                assert(r[5] == "http://"@[5]);
            }
        }
    }
    assert(url.skip(7) =~= r);
    assert("http://"@.is_prefix_of(url));
    assert(trim_start_matches_spec(url, "http://"@) == trim_start_matches_spec(r, "http://"@));
    assert(trim_start_matches_spec(r, "http://"@) == r);
    // No trailing slash: the numeral ends with a digit.
    assert(r.last() == d.last());
    assert(!seq!['/'].is_suffix_of(r)) by {
        if seq!['/'].is_suffix_of(r) {
            assert(r.subrange(r.len() - 1, r.len() as int)[0] == '/');
            assert(r[r.len() - 1] == '/');
        }
    }
    assert(authority_spec(url) == r);
    // The last `:` is the one before the numeral.
    lemma_rfind_append(h + ":"@, d, ':');
    assert(r =~= (h + ":"@) + d);
    assert((h + ":"@).last() == ':');
    assert(rfind_spec(r, ':') == Some(h.len() as int));
    assert(r.skip(h.len() as int + 1) =~= d);
    assert(r.take(h.len() as int) =~= h);
    lemma_parse_decimal(n, 65535);
    assert(rfind_spec(authority_spec(url), ':') == Some(h.len() as int));
    assert(authority_spec(url).skip(h.len() as int + 1) =~= d);
}

/// An endpoint URL `http://<h>` naming no port, for a host `h` without `:`
/// or a trailing `/` and not itself starting with `http://`, is host `h`
/// on the default port 8792.
pub proof fn lemma_url_without_port(h: Seq<char>)
    requires
        forall|i: int| 0 <= i < h.len() ==> h[i] != ':',
        h.len() == 0 || h.last() != '/',
        !"http://"@.is_prefix_of(h),
    ensures
        url_port("http://"@ + h) == DEFAULT_PORT,
        url_host("http://"@ + h) == h,
{
    reveal_strlit("http://");
    let url = "http://"@ + h;
    assert(url.skip(7) =~= h);
    assert("http://"@.is_prefix_of(url));
    assert(trim_start_matches_spec(url, "http://"@) == trim_start_matches_spec(h, "http://"@));
    assert(!seq!['/'].is_suffix_of(h)) by {
        if seq!['/'].is_suffix_of(h) {
            assert(h.subrange(h.len() - 1, h.len() as int)[0] == '/');
            assert(h[h.len() - 1] == '/');
        }
    }
    assert(authority_spec(url) == h);
    lemma_rfind_append(Seq::empty(), h, ':');
    assert(Seq::<char>::empty() + h =~= h);
}

/// A decimal numeral has no line break.
proof fn lemma_decimal_no_break(n: nat)
    ensures
        no_line_break(decimal(n)),
        decimal(n).len() > 0,
        !is_break(decimal(n)[0]),
        !is_break(decimal(n).last()),
{
    lemma_decimal_digits(n);
}

/// The head of a request is everything before its first blank line, and
/// what follows that blank line is exactly the body, whose UTF-8 length the
/// head announces: as long as the method, path, host and token hold no
/// line breaks, nothing they add can end the head early.
#[verifier::rlimit(40)]
pub proof fn lemma_request_body_intact(
    method: Seq<char>,
    path: Seq<char>,
    host: Seq<char>,
    port: u16,
    token: Seq<char>,
    body: Seq<char>,
)
    requires
        no_line_break(method),
        no_line_break(path),
        no_line_break(host),
        no_line_break(token),
    ensures
        ({
            let s = request_spec(method, path, host, port, token, body);
            &&& find_spec(s, "\r\n\r\n"@) matches Some(i) && s.skip(i + 4) == body
            &&& body_spec(s) == body
        }),
{
    reveal_strlit(" ");
    reveal_strlit(" HTTP/1.1\r\nHost: ");
    reveal_strlit(":");
    reveal_strlit("\r\n");
    reveal_strlit("X-Blackboard-Token: ");
    reveal_strlit("Content-Type: application/json\r\nContent-Length: ");
    reveal_strlit("\r\nConnection: close\r\n\r\n");
    reveal_strlit("\r\nConnection: close");
    reveal_strlit("\r\n\r\n");
    let sep = "\r\n\r\n"@;
    let a = method + " "@ + path;
    let b = " HTTP/1.1\r\nHost: "@;
    let c = host + ":"@ + decimal(port as nat);
    let d = "\r\n"@;
    let e = token_header(token);
    let f = "Content-Type: application/json\r\nContent-Length: "@;
    let g = decimal(encode_utf8(body).len());
    let h = "\r\nConnection: close"@;
    let s = request_spec(method, path, host, port, token, body);
    // The pieces of the head, and where line breaks meet.
    lemma_no_break_no_blank(method);
    lemma_no_break_no_blank(path);
    lemma_no_break_no_blank(host);
    lemma_no_break_no_blank(token);
    lemma_decimal_no_break(port as nat);
    lemma_decimal_no_break(encode_utf8(body).len());
    lemma_no_break_no_blank(" "@);
    lemma_no_break_no_blank(":"@);
    lemma_no_break_no_blank("X-Blackboard-Token: "@);
    lemma_no_break_no_blank(decimal(port as nat));
    lemma_no_break_no_blank(g);
    assert(no_blank_line(b));
    assert(no_blank_line(d));
    assert(no_blank_line(f));
    assert(no_blank_line(h));
    lemma_join_no_blank(method, " "@);
    lemma_join_no_blank(method + " "@, path);
    lemma_join_no_blank(a, b);
    lemma_join_no_blank(host, ":"@);
    lemma_join_no_blank(host + ":"@, decimal(port as nat));
    lemma_join_no_blank(a + b, c);
    lemma_join_no_blank(a + b + c, d);
    if token.len() > 0 {
        lemma_join_no_blank("X-Blackboard-Token: "@, token);
        lemma_join_no_blank("X-Blackboard-Token: "@ + token, d);
    }
    lemma_join_no_blank(a + b + c + d, e);
    lemma_join_no_blank(a + b + c + d + e, f);
    lemma_join_no_blank(a + b + c + d + e + f, g);
    lemma_join_no_blank(a + b + c + d + e + f + g, h);
    let head = a + b + c + d + e + f + g + h;
    assert(s =~= head + sep + body);
    // The first blank line is the one that ends the head.
    let n = head.len() as int;
    assert(head.last() == 'e');
    assert(crate::text::occurs_at(s, sep, n)) by {
        assert(s.subrange(n, n + 4) =~= sep);
    }
    assert forall|j: int| 0 <= j < n implies !crate::text::occurs_at(s, sep, j) by {
        if crate::text::occurs_at(s, sep, j) {
            assert(s.subrange(j, j + 4) == sep);
            assert(s[j] == s.subrange(j, j + 4)[0]);
            assert(s[j + 1] == s.subrange(j, j + 4)[1]);
            assert(s[j + 2] == s.subrange(j, j + 4)[2]);
            assert(s[j + 3] == s.subrange(j, j + 4)[3]);
            if j + 3 < n {
                assert(blank_at(head, j));
            } else {
                assert(s[n - 1] == head.last());
            }
        }
    }
    crate::text::lemma_find_from(s, sep, 0);
    assert(s.skip(n + 4) =~= body);
    reveal_strlit("\r\n\r\n");
}

/// The status code of a reply: the second word of its first line read as a
/// `u16`, or 0 when there is no such number.
pub open spec fn status_spec(text: Seq<char>) -> u16 {
    let ls = lines_spec(text);
    if ls.len() == 0 {
        0
    } else {
        let w = words_spec(ls[0]);
        if w.len() < 2 {
            0
        } else {
            match parse_unsigned(w[1], 65535) {
                Some(n) => n as u16,
                None => 0,
            }
        }
    }
}

/// The body of a reply: all the text after its first blank line
/// (`\r\n\r\n`), which ends the header; empty when there is none.
pub open spec fn body_spec(text: Seq<char>) -> Seq<char> {
    let sep = "\r\n\r\n"@;
    match find_spec(text, sep) {
        None => Seq::empty(),
        Some(i) => text.skip(i + sep.len()),
    }
}

impl Bb {
    /// An endpoint for `url` with no token.
    pub fn new(url: &str) -> (b: Bb)
        ensures
            b.host@ == url_host(url@),
            b.port == url_port(url@),
            b.token@ == Seq::<char>::empty(),
    {
        proof {
            reveal_strlit("");
        }
        Self::with_token(url, "")
    }

    /// An endpoint for `url` that presents `token` (none when empty).
    pub fn with_token(url: &str, token: &str) -> (b: Bb)
        ensures
            b.host@ == url_host(url@),
            b.port == url_port(url@),
            b.token@ == token@,
    {
        let chars = chars_of(url);
        let scheme = chars_of("http://");
        let slash: Vec<char> = vec!['/'];
        proof {
            reveal_strlit("http://");
        }
        let no_scheme = trim_start_matches(&chars, &scheme);
        let u = trim_end_matches(&no_scheme, &slash);
        proof {
            assert(slash@ =~= seq!['/']);
        }
        let (host, port) = match rfind_char(&u, ':') {
            Some(i) => {
                let h = slice_range(&u, 0, i);
                let p = slice_from(&u, i + 1);
                proof {
                    assert(u@.subrange(0, i as int) =~= u@.take(i as int));
                }
                let port = match parse_unsigned_exec(&p, 65535) {
                    Some(n) => n as u16,
                    None => DEFAULT_PORT,
                };
                (string_of(&h), port)
            },
            None => (string_of(&u), DEFAULT_PORT),
        };
        let mut t = String::new();
        crate::text::push_str(&mut t, token);
        Bb { host, port, token: t }
    }

    /// The endpoint's address as `http://host:port`.
    pub fn addr(&self) -> (s: String)
        ensures
            s@ == "http://"@ + self.host@ + ":"@ + decimal(self.port as nat),
    {
        let mut v: Vec<char> = Vec::new();
        push_text(&mut v, "http://");
        push_text(&mut v, self.host.as_str());
        push_text(&mut v, ":");
        push_decimal(&mut v, self.port as u64);
        string_of(&v)
    }

    /// The request text for `method path`, carrying `body` (empty when
    /// there is none).
    pub fn request(&self, method: &str, path: &str, body: Option<&str>) -> (req: String)
        ensures
            req@ == request_spec(
                method@,
                path@,
                self.host@,
                self.port,
                self.token@,
                match body {
                    Some(b) => b@,
                    None => Seq::<char>::empty(),
                },
            ),
    {
        let ghost body_opt = body;
        let body: &str = match body {
            Some(b) => b,
            None => "",
        };
        proof {
            reveal_strlit("");
        }
        let mut v: Vec<char> = Vec::new();
        push_text(&mut v, method);
        push_text(&mut v, " ");
        push_text(&mut v, path);
        push_text(&mut v, " HTTP/1.1\r\nHost: ");
        push_text(&mut v, self.host.as_str());
        push_text(&mut v, ":");
        push_decimal(&mut v, self.port as u64);
        push_text(&mut v, "\r\n");
        if !self.token.as_str().is_empty() {
            push_text(&mut v, "X-Blackboard-Token: ");
            push_text(&mut v, self.token.as_str());
            push_text(&mut v, "\r\n");
        }
        push_text(&mut v, "Content-Type: application/json\r\nContent-Length: ");
        let n: usize = body.as_bytes().len();
        push_decimal(&mut v, n as u64);
        push_text(&mut v, "\r\nConnection: close\r\n\r\n");
        push_text(&mut v, body);
        let r = string_of(&v);
        proof {
            let b = match body_opt {
                Some(b) => b@,
                None => Seq::<char>::empty(),
            };
            assert(r@ =~= request_spec(method@, path@, self.host@, self.port, self.token@, b));
        }
        r
    }

    /// The request for `GET path`.
    pub fn get(&self, path: &str) -> (req: String)
        ensures
            req@ == request_spec("GET"@, path@, self.host@, self.port, self.token@, Seq::empty()),
    {
        self.request("GET", path, None)
    }

    /// The request for `PUT path` carrying the JSON text `json`.
    pub fn put_json(&self, path: &str, json: &str) -> (req: String)
        ensures
            req@ == request_spec("PUT"@, path@, self.host@, self.port, self.token@, json@),
    {
        self.request("PUT", path, Some(json))
    }

    /// The request for `DELETE path`.
    pub fn delete(&self, path: &str) -> (req: String)
        ensures
            req@ == request_spec("DELETE"@, path@, self.host@, self.port, self.token@, Seq::empty()),
    {
        self.request("DELETE", path, None)
    }
}

/// Reads a reply: its status code and its body.
pub fn parse_response(text: &str) -> (r: (u16, String))
    ensures
        r.0 == status_spec(text@),
        r.1@ == body_spec(text@),
{
    let t = chars_of(text);
    let ls = lines(&t);
    let status: u16 = if ls.len() == 0 {
        0
    } else {
        proof {
            assert(views(ls@)[0] == ls@[0]@);
        }
        let w = words(&ls[0]);
        if w.len() < 2 {
            0
        } else {
            proof {
                assert(views(w@)[1] == w@[1]@);
            }
            match parse_unsigned_exec(&w[1], 65535) {
                Some(n) => n as u16,
                None => 0,
            }
        }
    };
    let sep = chars_of("\r\n\r\n");
    proof {
        reveal_strlit("\r\n\r\n");
    }
    let body = match find_exec(&t, &sep, 0) {
        None => Vec::new(),
        Some(i) => {
            proof {
                crate::text::lemma_find_from(t@, sep@, 0);
                assert(i + sep@.len() <= t@.len());
                assert(t@.len() == t.len());
            }
            slice_from(&t, i + sep.len())
        },
    };
    proof {
        if find_spec(t@, sep@) is None {
            assert(body@ =~= Seq::<char>::empty());
        }
    }
    (status, string_of(&body))
}

/// The outcome of fetching JSON from `path`: an error for any status but
/// 200, otherwise the parsed body or the parse error.
pub fn json_outcome(path: &str, status: u16, parsed: Result<Json, String>) -> (r: Result<
    Json,
    String,
>)
    ensures
        status != 200 ==> (r matches Err(e) && e@ == "GET "@ + path@ + " -> "@ + decimal(
            status as nat,
        )),
        status == 200 ==> match parsed {
            Ok(v) => r == Ok::<Json, String>(v),
            Err(pe) => (r matches Err(e) && e@ == "bad json "@ + path@ + ": "@ + pe@),
        },
{
    if status != 200 {
        let mut v: Vec<char> = Vec::new();
        push_text(&mut v, "GET ");
        push_text(&mut v, path);
        push_text(&mut v, " -> ");
        push_decimal(&mut v, status as u64);
        return Err(string_of(&v));
    }
    match parsed {
        Ok(j) => Ok(j),
        Err(pe) => {
            let mut v: Vec<char> = Vec::new();
            push_text(&mut v, "bad json ");
            push_text(&mut v, path);
            push_text(&mut v, ": ");
            push_text(&mut v, pe.as_str());
            Err(string_of(&v))
        },
    }
}

} // verus!
