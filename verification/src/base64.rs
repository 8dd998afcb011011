//! Standard base64 (RFC 4648 alphabet, `=` padding) for message signatures.

use vstd::prelude::*;
use crate::text::{chars_of, is_white_space, is_whitespace, push_char};

verus! {

/// The base64 symbol for a 6-bit value.
pub open spec fn symbol(v: int) -> char {
    if v < 26 {
        (65 + v) as char
    } else if v < 52 {
        (97 + v - 26) as char
    } else if v < 62 {
        (48 + v - 52) as char
    } else if v == 62 {
        '+'
    } else {
        '/'
    }
}

/// The 6-bit value of a base64 symbol, or `None` for any other character.
pub open spec fn symbol_value(c: char) -> Option<int> {
    if 'A' <= c <= 'Z' {
        Some(c as int - 65)
    } else if 'a' <= c <= 'z' {
        Some(c as int - 97 + 26)
    } else if '0' <= c <= '9' {
        Some(c as int - 48 + 52)
    } else if c == '+' {
        Some(62)
    } else if c == '/' {
        Some(63)
    } else {
        None
    }
}

/// The base64 encoding of `b`: each group of three bytes becomes four
/// symbols; a final group of one or two bytes is padded with `=`.
pub open spec fn encode_spec(b: Seq<u8>) -> Seq<char>
    decreases b.len(),
{
    if b.len() == 0 {
        Seq::empty()
    } else {
        let x0 = b[0] as int;
        if b.len() == 1 {
            seq![symbol(x0 / 4), symbol((x0 % 4) * 16), '=', '=']
        } else {
            let x1 = b[1] as int;
            if b.len() == 2 {
                seq![symbol(x0 / 4), symbol((x0 % 4) * 16 + x1 / 16), symbol((x1 % 16) * 4), '=']
            } else {
                let x2 = b[2] as int;
                seq![
                    symbol(x0 / 4),
                    symbol((x0 % 4) * 16 + x1 / 16),
                    symbol((x1 % 16) * 4 + x2 / 64),
                    symbol(x2 % 64),
                ] + encode_spec(b.skip(3))
            }
        }
    }
}

/// The 6-bit values of the symbols of `s`, skipping `=` and whitespace;
/// `None` if `s` holds any other character.
pub open spec fn sextets(s: Seq<char>) -> Option<Seq<int>>
    decreases s.len(),
{
    if s.len() == 0 {
        Some(Seq::empty())
    } else {
        let c = s.last();
        match sextets(s.drop_last()) {
            None => None,
            Some(v) => if c == '=' || is_white_space(c) {
                Some(v)
            } else {
                match symbol_value(c) {
                    Some(x) => Some(v.push(x)),
                    None => None,
                }
            },
        }
    }
}

/// The bytes carried by a sequence of 6-bit values: each group of four
/// values gives three bytes; a final group of two or three values gives one
/// or two bytes; leftover bits are dropped.
pub open spec fn unpack(v: Seq<int>) -> Seq<u8>
    decreases v.len(),
{
    if v.len() <= 1 {
        Seq::empty()
    } else if v.len() == 2 {
        seq![(v[0] * 4 + v[1] / 16) as u8]
    } else if v.len() == 3 {
        seq![(v[0] * 4 + v[1] / 16) as u8, ((v[1] % 16) * 16 + v[2] / 4) as u8]
    } else {
        seq![
            (v[0] * 4 + v[1] / 16) as u8,
            ((v[1] % 16) * 16 + v[2] / 4) as u8,
            ((v[2] % 4) * 64 + v[3]) as u8,
        ] + unpack(v.skip(4))
    }
}

/// The byte that the last of `v`'s values completes, if any.
pub open spec fn completed_byte(v: Seq<int>) -> Seq<u8> {
    let n = v.len();
    if n == 0 || n % 4 == 1 {
        Seq::empty()
    } else if n % 4 == 2 {
        seq![(v[n - 2] * 4 + v[n - 1] / 16) as u8]
    } else if n % 4 == 3 {
        seq![((v[n - 2] % 16) * 16 + v[n - 1] / 4) as u8]
    } else {
        seq![((v[n - 2] % 4) * 64 + v[n - 1]) as u8]
    }
}

/// Decoding base64 text: `None` if it holds a character that is neither a
/// symbol, `=`, nor whitespace.
pub open spec fn decode_spec(s: Seq<char>) -> Option<Seq<u8>> {
    match sextets(s) {
        Some(v) => Some(unpack(v)),
        None => None,
    }
}

/// Appending one value to a sequence of values appends the byte it
/// completes.
pub proof fn lemma_unpack_push(v: Seq<int>, x: int)
    ensures
        unpack(v.push(x)) == unpack(v) + completed_byte(v.push(x)),
    decreases v.len(),
{
    let w = v.push(x);
    if v.len() >= 4 {
        lemma_unpack_push(v.skip(4), x);
        assert(w.skip(4) =~= v.skip(4).push(x));
        assert(w.skip(4).len() % 4 == w.len() % 4);
        let n = w.len();
        assert(w.skip(4)[w.skip(4).len() - 1] == w[n - 1]);
        if w.skip(4).len() >= 2 {
            assert(w.skip(4)[w.skip(4).len() - 2] == w[n - 2]);
        }
        assert(completed_byte(w.skip(4)) == completed_byte(w));
        assert(w[0] == v[0] && w[1] == v[1] && w[2] == v[2] && w[3] == v[3]);
        let g = seq![
            (v[0] * 4 + v[1] / 16) as u8,
            ((v[1] % 16) * 16 + v[2] / 4) as u8,
            ((v[2] % 4) * 64 + v[3]) as u8,
        ];
        assert(unpack(v) == g + unpack(v.skip(4)));
        assert(unpack(w) == g + unpack(w.skip(4)));
        let a = unpack(v.skip(4));
        let c = completed_byte(w);
        assert(unpack(w.skip(4)) == a + c);
        assert((g + a) + c =~= g + (a + c));
    } else if v.len() == 3 {
        assert(w.skip(4).len() == 0);
        assert(unpack(w.skip(4)) =~= Seq::<u8>::empty());
        assert(w[0] == v[0] && w[1] == v[1] && w[2] == v[2] && w[3] == x);
        assert(unpack(w) =~= unpack(v) + completed_byte(w));
    } else {
        assert(unpack(w) =~= unpack(v) + completed_byte(w));
    }
}

/// Every symbol decodes to the value it encodes.
pub proof fn lemma_symbol_value(v: int)
    requires
        0 <= v < 64,
    ensures
        symbol_value(symbol(v)) == Some(v),
        symbol(v) != '=',
        !is_white_space(symbol(v)),
{
}

/// The sextets of a concatenation are those of the parts, concatenated.
pub proof fn lemma_sextets_concat(a: Seq<char>, b: Seq<char>)
    requires
        sextets(a) is Some,
        sextets(b) is Some,
    ensures
        sextets(a + b) == Some(sextets(a)->0 + sextets(b)->0),
    decreases b.len(),
{
    if b.len() == 0 {
        assert(a + b =~= a);
        assert(sextets(a)->0 + sextets(b)->0 =~= sextets(a)->0);
    } else {
        assert((a + b).drop_last() =~= a + b.drop_last());
        lemma_sextets_concat(a, b.drop_last());
        let c = b.last();
        assert((a + b).last() == c);
        if c == '=' || is_white_space(c) {
        } else {
            let x = symbol_value(c)->0;
            assert(sextets(a)->0 + sextets(b.drop_last())->0 + seq![x] =~= sextets(a)->0 + (
            sextets(b.drop_last())->0 + seq![x]));
            assert(sextets(b.drop_last())->0.push(x) =~= sextets(b.drop_last())->0 + seq![x]);
            assert((sextets(a)->0 + sextets(b.drop_last())->0).push(x) =~= sextets(a)->0
                + sextets(b.drop_last())->0 + seq![x]);
        }
    }
}

/// The sextets of a group of symbols.
pub proof fn lemma_sextets_group(s: Seq<char>, v: Seq<int>, pad: nat)
    requires
        s.len() == v.len() + pad,
        forall|i: int| 0 <= i < v.len() ==> 0 <= #[trigger] v[i] < 64 && s[i] == symbol(v[i]),
        forall|i: int| v.len() <= i < s.len() ==> s[i] == '=',
    ensures
        sextets(s) == Some(v),
    decreases s.len(),
{
    if s.len() == 0 {
        assert(v =~= Seq::<int>::empty());
    } else if pad > 0 {
        lemma_sextets_group(s.drop_last(), v, (pad - 1) as nat);
    } else {
        lemma_sextets_group(s.drop_last(), v.drop_last(), 0);
        lemma_symbol_value(v.last());
        assert(v.drop_last().push(v.last()) =~= v);
    }
}

/// Decoding an encoding gives back the original bytes.
pub proof fn lemma_decode_encode(b: Seq<u8>)
    ensures
        decode_spec(encode_spec(b)) == Some(b),
    decreases b.len(),
{
    let e = encode_spec(b);
    let x0 = if b.len() > 0 { b[0] as int } else { 0 };
    let x1 = if b.len() > 1 { b[1] as int } else { 0 };
    let x2 = if b.len() > 2 { b[2] as int } else { 0 };
    if b.len() == 0 {
        assert(unpack(Seq::<int>::empty()) =~= b);
    } else if b.len() == 1 {
        let v = seq![x0 / 4, (x0 % 4) * 16];
        lemma_sextets_group(e, v, 2);
        assert(unpack(v) =~= b);
    } else if b.len() == 2 {
        let v = seq![x0 / 4, (x0 % 4) * 16 + x1 / 16, (x1 % 16) * 4];
        lemma_sextets_group(e, v, 1);
        assert(unpack(v) =~= b);
    } else {
        let v = seq![
            x0 / 4,
            (x0 % 4) * 16 + x1 / 16,
            (x1 % 16) * 4 + x2 / 64,
            x2 % 64,
        ];
        let g = e.take(4);
        let rest = encode_spec(b.skip(3));
        assert(e =~= g + rest);
        lemma_sextets_group(g, v, 0);
        lemma_decode_encode(b.skip(3));
        lemma_sextets_concat(g, rest);
        let w = v + sextets(rest)->0;
        assert(w.skip(4) =~= sextets(rest)->0);
        assert(unpack(w) =~= seq![b[0], b[1], b[2]] + b.skip(3));
        assert(seq![b[0], b[1], b[2]] + b.skip(3) =~= b);
    }
}

/// If a prefix of `s` already holds a character that is not allowed, so
/// does `s`.
pub proof fn lemma_sextets_prefix_none(s: Seq<char>, k: int)
    requires
        0 <= k <= s.len(),
        sextets(s.take(k)) is None,
    ensures
        sextets(s) is None,
    decreases s.len() - k,
{
    if k < s.len() {
        assert(s.take(k + 1).drop_last() =~= s.take(k));
        lemma_sextets_prefix_none(s, k + 1);
    } else {
        assert(s.take(k) =~= s);
    }
}

/// The base64 symbol for a 6-bit value.
pub fn symbol_exec(v: u32) -> (c: char)
    requires
        v < 64,
    ensures
        c == symbol(v as int),
{
    let u: u8 = if v < 26 {
        65 + v as u8
    } else if v < 52 {
        97 + (v as u8 - 26)
    } else if v < 62 {
        48 + (v as u8 - 52)
    } else if v == 62 {
        43
    } else {
        47
    };
    u as char
}

proof fn lemma_group_bits(b0: u32, b1: u32, b2: u32, n: u32) by (bit_vector)
    requires
        b0 < 256,
        b1 < 256,
        b2 < 256,
        n == (b0 << 16) | (b1 << 8) | b2,
    ensures
        (n >> 18) & 63 == b0 / 4,
        (n >> 12) & 63 == (b0 % 4) * 16 + b1 / 16,
        (n >> 6) & 63 == (b1 % 16) * 4 + b2 / 64,
        n & 63 == b2 % 64,
{
}

/// The base64 encoding of `bytes`, with `=` padding.
pub fn base64_encode(bytes: &[u8]) -> (out: String)
    ensures
        out@ == encode_spec(bytes@),
{
    let mut out = String::new();
    let mut i: usize = 0;
    proof {
        assert(bytes@.skip(0) =~= bytes@);
    }
    while i < bytes.len()
        invariant
            i <= bytes.len(),
            out@ + encode_spec(bytes@.skip(i as int)) == encode_spec(bytes@),
        decreases bytes.len() - i,
    {
        let rest = bytes.len() - i;
        let b0 = bytes[i] as u32;
        let b1 = if rest > 1 { bytes[i + 1] as u32 } else { 0 };
        let b2 = if rest > 2 { bytes[i + 2] as u32 } else { 0 };
        let n: u32 = (b0 << 16) | (b1 << 8) | b2;
        proof {
            lemma_group_bits(b0, b1, b2, n);
        }
        let ghost before = out@;
        let ghost tail = bytes@.skip(i as int);
        let c0 = symbol_exec((n >> 18) & 63);
        let c1 = symbol_exec((n >> 12) & 63);
        push_char(&mut out, c0);
        push_char(&mut out, c1);
        if rest > 1 {
            let c2 = symbol_exec((n >> 6) & 63);
            push_char(&mut out, c2);
        } else {
            push_char(&mut out, '=');
        }
        if rest > 2 {
            let c3 = symbol_exec(n & 63);
            push_char(&mut out, c3);
        } else {
            push_char(&mut out, '=');
        }
        proof {
            assert(tail[0] == bytes@[i as int]);
            if rest > 1 {
                assert(tail[1] == bytes@[i + 1]);
            }
            if rest > 2 {
                assert(tail[2] == bytes@[i + 2]);
            }
            let group = out@.skip(before.len() as int);
            assert(out@ =~= before + group);
            if rest >= 3 {
                assert(tail.skip(3) =~= bytes@.skip(i + 3));
                assert(encode_spec(tail) =~= group + encode_spec(bytes@.skip(i + 3)));
                assert(before + group + encode_spec(bytes@.skip(i + 3)) =~= before + (group
                    + encode_spec(bytes@.skip(i + 3))));
            } else {
                assert(bytes@.skip(bytes@.len() as int) =~= Seq::<u8>::empty());
                assert(encode_spec(tail) =~= group);
                assert(out@ + encode_spec(bytes@.skip(bytes@.len() as int)) =~= out@);
            }
        }
        i = if rest >= 3 { i + 3 } else { bytes.len() };
    }
    proof {
        assert(bytes@.skip(bytes@.len() as int) =~= Seq::<u8>::empty());
        assert(out@ + encode_spec(Seq::<u8>::empty()) =~= out@);
    }
    out
}

proof fn lemma_shift_in_first(buf: u32, x: u32) by (bit_vector)
    requires
        x < 64,
    ensures
        ((buf << 6) | x) & 63 == x,
{
}

proof fn lemma_shift_in_second(buf: u32, x: u32) by (bit_vector)
    requires
        x < 64,
    ensures
        (((buf << 6) | x) >> 4) as u8 == (buf & 63) * 4 + x / 16,
        ((buf << 6) | x) & 15 == x % 16,
{
}

proof fn lemma_shift_in_third(buf: u32, x: u32) by (bit_vector)
    requires
        x < 64,
    ensures
        (((buf << 6) | x) >> 2) as u8 == (buf & 15) * 16 + x / 4,
        ((buf << 6) | x) & 3 == x % 4,
{
}

proof fn lemma_shift_in_fourth(buf: u32, x: u32) by (bit_vector)
    requires
        x < 64,
    ensures
        (((buf << 6) | x) >> 0) as u8 == (buf & 3) * 64 + x,
{
}

/// Decodes base64 text, skipping `=` and whitespace; `None` if the text
/// holds any other character that is not a base64 symbol.
pub fn base64_decode(s: &str) -> (r: Option<Vec<u8>>)
    ensures
        r matches Some(v) ==> decode_spec(s@) == Some(v@),
        r is None ==> decode_spec(s@) is None,
{
    let cs = chars_of(s);
    let mut out: Vec<u8> = Vec::new();
    let mut buf: u32 = 0;
    let mut bits: u8 = 0;
    let ghost mut vals: Seq<int> = Seq::empty();
    let mut i: usize = 0;
    proof {
        assert(cs@.take(0) =~= Seq::<char>::empty());
    }
    while i < cs.len()
        invariant
            i <= cs.len(),
            cs@ == s@,
            sextets(cs@.take(i as int)) == Some(vals),
            forall|k: int| 0 <= k < vals.len() ==> 0 <= #[trigger] vals[k] < 64,
            out@ == unpack(vals),
            vals.len() % 4 == 0 ==> bits == 0,
            vals.len() % 4 == 1 ==> bits == 6 && buf & 63 == vals.last(),
            vals.len() % 4 == 2 ==> bits == 4 && buf & 15 == vals.last() % 16,
            vals.len() % 4 == 3 ==> bits == 2 && buf & 3 == vals.last() % 4,
        decreases cs.len() - i,
    {
        let c = cs[i];
        proof {
            assert(cs@.take(i + 1).drop_last() =~= cs@.take(i as int));
            assert(cs@.take(i + 1).last() == c);
        }
        if c == '=' || is_whitespace(c) {
            i = i + 1;
            continue;
        }
        let v: u32 = if 'A' <= c && c <= 'Z' {
            c as u32 - 65
        } else if 'a' <= c && c <= 'z' {
            c as u32 - 97 + 26
        } else if '0' <= c && c <= '9' {
            c as u32 - 48 + 52
        } else if c == '+' {
            62
        } else if c == '/' {
            63
        } else {
            proof {
                assert(symbol_value(c) is None);
                assert(sextets(cs@.take(i + 1)) is None);
                lemma_sextets_prefix_none(cs@, i + 1);
            }
            return None;
        };
        proof {
            assert(symbol_value(c) == Some(v as int));
        }
        let ghost r = vals.len() % 4;
        let ghost old_buf = buf;
        buf = (buf << 6) | v;
        bits = bits + 6;
        proof {
            lemma_unpack_push(vals, v as int);
            lemma_shift_in_first(old_buf, v);
            lemma_shift_in_second(old_buf, v);
            lemma_shift_in_third(old_buf, v);
            lemma_shift_in_fourth(old_buf, v);
        }
        if bits >= 8 {
            bits = bits - 8;
            out.push(#[verifier::truncate] ((buf >> bits) as u8));
        }
        proof {
            let w = vals.push(v as int);
            let n = w.len();
            assert(w[n - 1] == v);
            if n >= 2 {
                assert(w[n - 2] == vals.last());
            }
            assert(out@ =~= unpack(w));
            vals = w;
        }
        i = i + 1;
    }
    proof {
        assert(cs@.take(cs@.len() as int) =~= cs@);
    }
    Some(out)
}

} // verus!
