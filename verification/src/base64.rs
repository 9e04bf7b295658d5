//! Standard-alphabet (RFC 4648, with `=` padding) base64 encoding, used for
//! the HTTP Basic credentials that AdGuard Home's admin API expects.

use vstd::prelude::*;

verus! {

/// `String::push` appends one character to the end of the string.
pub assume_specification[ String::push ](s: &mut String, ch: char)
    ensures
        final(s)@ == old(s)@.push(ch),
;

/// The character at position `v` (0..64) of the standard base64 alphabet
/// `A-Z a-z 0-9 + /`.
pub open spec fn sextet_char(v: int) -> char {
    if v < 26 {
        ('A' as int + v) as char
    } else if v < 52 {
        ('a' as int + (v - 26)) as char
    } else if v < 62 {
        ('0' as int + (v - 52)) as char
    } else if v == 62 {
        '+'
    } else {
        '/'
    }
}

/// The 24-bit value of a group of up to three bytes; missing bytes count as 0.
pub open spec fn group_value(g: Seq<u8>) -> int {
    let b0 = g[0] as int;
    let b1 = if g.len() > 1 { g[1] as int } else { 0 };
    let b2 = if g.len() > 2 { g[2] as int } else { 0 };
    b0 * 65536 + b1 * 256 + b2
}

/// The four output characters of a group of one to three input bytes: the
/// 24-bit group split into four 6-bit values, most significant first, with
/// `=` in place of the values that only cover missing bytes.
pub open spec fn encode_group(g: Seq<u8>) -> Seq<char> {
    let n = group_value(g);
    seq![
        sextet_char(n / 262144),
        sextet_char((n / 4096) % 64),
        if g.len() > 1 { sextet_char((n / 64) % 64) } else { '=' },
        if g.len() > 2 { sextet_char(n % 64) } else { '=' },
    ]
}

/// Base64 of a byte sequence: each group of three bytes (the last one may be
/// shorter) becomes four characters.
pub open spec fn base64(s: Seq<u8>) -> Seq<char>
    decreases s.len(),
{
    if s.len() == 0 {
        Seq::empty()
    } else if s.len() <= 3 {
        encode_group(s)
    } else {
        encode_group(s.take(3)) + base64(s.skip(3))
    }
}

/// Length of the encoding: four characters per started group of three bytes.
pub open spec fn base64_len(n: nat) -> nat {
    4 * ((n + 2) / 3)
}

/// Exec counterpart of `sextet_char`.
fn alphabet_char(v: u32) -> (c: char)
    requires
        v < 64,
    ensures
        c == sextet_char(v as int),
{
    if v < 26 {
        ((v + 65) as u8) as char
    } else if v < 52 {
        ((v - 26 + 97) as u8) as char
    } else if v < 62 {
        ((v - 52 + 48) as u8) as char
    } else if v == 62 {
        '+'
    } else {
        '/'
    }
}

/// Encodes `input` as standard base64 with `=` padding.
pub fn base64_encode(input: &[u8]) -> (out: String)
    ensures
        out@ == base64(input@),
        out@.len() == base64_len(input@.len()),
{
    let len = input.len();
    let mut out = String::new();
    let mut i: usize = 0;
    assert(input@.skip(0) =~= input@);
    while i < len
        invariant
            i <= len,
            len == input@.len(),
            out@ + base64(input@.skip(i as int)) == base64(input@),
        decreases len - i,
    {
        let ghost rest = input@.skip(i as int);
        let b0 = input[i] as u32;
        let b1: u32 = if len - i > 1 { input[i + 1] as u32 } else { 0 };
        let b2: u32 = if len - i > 2 { input[i + 2] as u32 } else { 0 };
        let n: u32 = (b0 << 16) | (b1 << 8) | b2;
        proof {
            assert((b0 << 16) | (b1 << 8) | b2 == b0 * 65536 + b1 * 256 + b2) by (bit_vector)
                requires
                    b0 < 256,
                    b1 < 256,
                    b2 < 256,
            ;
            assert(n < 16777216);
            assert(n >> 18 & 0x3f == n / 262144) by (bit_vector)
                requires
                    n < 16777216,
            ;
            assert(n >> 12 & 0x3f == (n / 4096) % 64) by (bit_vector);
            assert(n >> 6 & 0x3f == (n / 64) % 64) by (bit_vector);
            assert(n & 0x3f == n % 64) by (bit_vector);
        }
        let ghost group = if rest.len() <= 3 { rest } else { rest.take(3) };
        assert(group_value(group) == n as int);
        let ghost before = out@;
        out.push(alphabet_char(n >> 18 & 0x3f));
        out.push(alphabet_char(n >> 12 & 0x3f));
        out.push(
            if len - i > 1 {
                alphabet_char(n >> 6 & 0x3f)
            } else {
                '='
            },
        );
        out.push(
            if len - i > 2 {
                alphabet_char(n & 0x3f)
            } else {
                '='
            },
        );
        assert(out@ =~= before + encode_group(group));
        if len - i > 3 {
            assert(input@.skip(i as int).skip(3) =~= input@.skip(i + 3));
            i = i + 3;
        } else {
            assert(input@.skip(len as int) =~= Seq::<u8>::empty());
            i = len;
        }
    }
    assert(input@.skip(len as int) =~= Seq::<u8>::empty());
    proof {
        lemma_base64_len(input@);
    }
    out
}

/// The encoding has four characters per started group of three input bytes.
pub proof fn lemma_base64_len(s: Seq<u8>)
    ensures
        base64(s).len() == base64_len(s.len()),
    decreases s.len(),
{
    if s.len() > 3 {
        lemma_base64_len(s.skip(3));
    }
}


/// Encoding distributes over concatenation when the first part is a whole
/// number of three-byte groups.
pub proof fn lemma_base64_concat(s: Seq<u8>, t: Seq<u8>)
    requires
        s.len() % 3 == 0,
    ensures
        base64(s + t) == base64(s) + base64(t),
    decreases s.len(),
{
    if s.len() == 0 {
        assert(s + t =~= t);
        assert(base64(s) + base64(t) =~= base64(t));
    } else {
        let st = s + t;
        assert(st.take(3) =~= s.take(3));
        if s.len() == 3 {
            assert(s.take(3) =~= s);
            if t.len() == 0 {
                assert(st =~= s);
                assert(base64(s) + base64(t) =~= base64(s));
            } else {
                assert(st.skip(3) =~= t);
            }
        } else {
            assert(st.skip(3) =~= s.skip(3) + t);
            lemma_base64_concat(s.skip(3), t);
            assert(base64(st) =~= base64(s) + base64(t));
        }
    }
}

/// Position of `c` in the base64 alphabet (meaningful for alphabet characters).
pub open spec fn sextet_index(c: char) -> int {
    let x = c as int;
    if 'A' as int <= x <= 'Z' as int {
        x - 'A' as int
    } else if 'a' as int <= x <= 'z' as int {
        x - 'a' as int + 26
    } else if '0' as int <= x <= '9' as int {
        x - '0' as int + 52
    } else if c == '+' {
        62
    } else {
        63
    }
}

proof fn lemma_sextet_char(v: int)
    requires
        0 <= v < 64,
    ensures
        sextet_index(sextet_char(v)) == v,
        sextet_char(v) != '=',
{
}

proof fn lemma_sextets_determine_value(n1: u32, n2: u32)
    requires
        n1 < 16777216,
        n2 < 16777216,
        n1 / 262144 == n2 / 262144,
        (n1 / 4096) % 64 == (n2 / 4096) % 64,
        (n1 / 64) % 64 == (n2 / 64) % 64,
        n1 % 64 == n2 % 64,
    ensures
        n1 == n2,
{
    assert(n1 < 16777216 && n2 < 16777216 && n1 / 262144 == n2 / 262144 && (n1 / 4096) % 64 == (
    n2 / 4096) % 64 && (n1 / 64) % 64 == (n2 / 64) % 64 && n1 % 64 == n2 % 64 ==> n1 == n2)
        by (bit_vector);
}

proof fn lemma_value_determines_bytes(a0: u32, a1: u32, a2: u32, b0: u32, b1: u32, b2: u32)
    requires
        a0 < 256,
        a1 < 256,
        a2 < 256,
        b0 < 256,
        b1 < 256,
        b2 < 256,
        a0 * 65536 + a1 * 256 + a2 == b0 * 65536 + b1 * 256 + b2,
    ensures
        a0 == b0,
        a1 == b1,
        a2 == b2,
{
    assert(a0 < 256 && a1 < 256 && a2 < 256 && b0 < 256 && b1 < 256 && b2 < 256 && a0 * 65536
        + a1 * 256 + a2 == b0 * 65536 + b1 * 256 + b2 ==> a0 == b0 && a1 == b1 && a2 == b2)
        by (bit_vector);
}

proof fn lemma_encode_group_injective(g1: Seq<u8>, g2: Seq<u8>)
    requires
        1 <= g1.len() <= 3,
        1 <= g2.len() <= 3,
        encode_group(g1) == encode_group(g2),
    ensures
        g1 == g2,
{
    let n1 = group_value(g1);
    let n2 = group_value(g2);
    let e1 = encode_group(g1);
    let e2 = encode_group(g2);
    assert(0 <= n1 < 16777216);
    assert(0 <= n2 < 16777216);
    lemma_sextet_char(n1 / 262144);
    lemma_sextet_char(n2 / 262144);
    lemma_sextet_char((n1 / 4096) % 64);
    lemma_sextet_char((n2 / 4096) % 64);
    lemma_sextet_char((n1 / 64) % 64);
    lemma_sextet_char((n2 / 64) % 64);
    lemma_sextet_char(n1 % 64);
    lemma_sextet_char(n2 % 64);
    assert(e1[0] == e2[0] && e1[1] == e2[1] && e1[2] == e2[2] && e1[3] == e2[3]);
    assert(g1.len() == g2.len());
    let a0 = g1[0] as u32;
    let a1: u32 = if g1.len() > 1 { g1[1] as u32 } else { 0 };
    let a2: u32 = if g1.len() > 2 { g1[2] as u32 } else { 0 };
    let b0 = g2[0] as u32;
    let b1: u32 = if g2.len() > 1 { g2[1] as u32 } else { 0 };
    let b2: u32 = if g2.len() > 2 { g2[2] as u32 } else { 0 };
    let m1: u32 = (a0 * 65536 + a1 * 256 + a2) as u32;
    let m2: u32 = (b0 * 65536 + b1 * 256 + b2) as u32;
    assert(m1 == n1 && m2 == n2);
    if g1.len() < 3 {
        assert(a2 == 0 && b2 == 0);
        assert(m1 % 64 == 0) by (bit_vector)
            requires
                m1 == a0 * 65536 + a1 * 256 + a2,
                a2 == 0,
        ;
        assert(m2 % 64 == 0) by (bit_vector)
            requires
                m2 == b0 * 65536 + b1 * 256 + b2,
                b2 == 0,
        ;
    }
    if g1.len() < 2 {
        assert(a1 == 0 && b1 == 0);
        assert((m1 / 64) % 64 == 0) by (bit_vector)
            requires
                m1 == a0 * 65536 + a1 * 256 + a2,
                a1 == 0,
                a2 == 0,
        ;
        assert((m2 / 64) % 64 == 0) by (bit_vector)
            requires
                m2 == b0 * 65536 + b1 * 256 + b2,
                b1 == 0,
                b2 == 0,
        ;
    }
    lemma_sextets_determine_value(m1, m2);
    lemma_value_determines_bytes(a0, a1, a2, b0, b1, b2);
    assert(g1 =~= g2);
}

/// Base64 loses no information: two byte sequences with the same encoding are
/// equal.
pub proof fn lemma_base64_injective(a: Seq<u8>, b: Seq<u8>)
    requires
        base64(a) == base64(b),
    ensures
        a == b,
    decreases a.len(),
{
    lemma_base64_len(a);
    lemma_base64_len(b);
    if a.len() == 0 || b.len() == 0 {
        assert(a.len() == 0 && b.len() == 0);
        assert(a =~= b);
    } else if a.len() <= 3 && b.len() <= 3 {
        lemma_encode_group_injective(a, b);
    } else if a.len() > 3 && b.len() > 3 {
        let ea = encode_group(a.take(3));
        let eb = encode_group(b.take(3));
        assert(base64(a).take(4) =~= ea);
        assert(base64(b).take(4) =~= eb);
        lemma_encode_group_injective(a.take(3), b.take(3));
        assert(base64(a).skip(4) =~= base64(a.skip(3)));
        assert(base64(b).skip(4) =~= base64(b.skip(3)));
        lemma_base64_injective(a.skip(3), b.skip(3));
        assert(a =~= a.take(3) + a.skip(3));
        assert(b =~= b.take(3) + b.skip(3));
    } else {
        assert(false);
    }
}


/// The standard base64 alphabet of RFC 4648, written out: position `v` holds
/// the character for the 6-bit value `v`.
pub open spec fn standard_alphabet() -> Seq<char> {
    "ABCDEFGHIJKLMNOPQRSTUVWXYZabcdefghijklmnopqrstuvwxyz0123456789+/"@
}

/// `sextet_char` is the standard alphabet.
pub proof fn lemma_sextet_char_is_standard(v: int)
    requires
        0 <= v < 64,
    ensures
        standard_alphabet().len() == 64,
        sextet_char(v) == standard_alphabet()[v],
{
    reveal_strlit("ABCDEFGHIJKLMNOPQRSTUVWXYZabcdefghijklmnopqrstuvwxyz0123456789+/");
}

proof fn lemma_sextets_of_bytes(b0: u32, b1: u32, b2: u32)
    requires
        b0 < 256,
        b1 < 256,
        b2 < 256,
    ensures
        (b0 * 65536 + b1 * 256 + b2) / 262144 == b0 / 4,
        ((b0 * 65536 + b1 * 256 + b2) / 4096) % 64 == (b0 % 4) * 16 + b1 / 16,
        ((b0 * 65536 + b1 * 256 + b2) / 64) % 64 == (b1 % 16) * 4 + b2 / 64,
        (b0 * 65536 + b1 * 256 + b2) % 64 == b2 % 64,
{
    assert(b0 < 256 && b1 < 256 && b2 < 256 ==> (b0 * 65536 + b1 * 256 + b2) / 262144 == b0 / 4
        && ((b0 * 65536 + b1 * 256 + b2) / 4096) % 64 == (b0 % 4) * 16 + b1 / 16 && ((b0 * 65536
        + b1 * 256 + b2) / 64) % 64 == (b1 % 16) * 4 + b2 / 64 && (b0 * 65536 + b1 * 256 + b2)
        % 64 == b2 % 64) by (bit_vector);
}

/// What base64 writes, stated on the input bytes: the encoding has four
/// characters per started group of three bytes, and the characters of group
/// `g` (bytes `3g`, `3g + 1`, `3g + 2`, missing ones read as 0) are the
/// standard-alphabet letters of the top six bits of the first byte, of its
/// low two bits followed by the top four of the second, of the second's low
/// four followed by the top two of the third, and of the third's low six;
/// the last two are `=` where their bytes are missing.
pub proof fn lemma_base64_positions(s: Seq<u8>, g: int)
    requires
        0 <= g,
        3 * g < s.len(),
    ensures
        ({
            let out = base64(s);
            let a = standard_alphabet();
            let i = 3 * g;
            let b0 = s[i] as int;
            let b1 = if i + 1 < s.len() { s[i + 1] as int } else { 0 };
            let b2 = if i + 2 < s.len() { s[i + 2] as int } else { 0 };
            &&& out.len() == 4 * ((s.len() + 2) / 3)
            &&& out[4 * g] == a[b0 / 4]
            &&& out[4 * g + 1] == a[(b0 % 4) * 16 + b1 / 16]
            &&& out[4 * g + 2] == if i + 1 < s.len() {
                a[(b1 % 16) * 4 + b2 / 64]
            } else {
                '='
            }
            &&& out[4 * g + 3] == if i + 2 < s.len() {
                a[b2 % 64]
            } else {
                '='
            }
        }),
    decreases g,
{
    lemma_base64_len(s);
    if g == 0 {
        let grp = if s.len() <= 3 { s } else { s.take(3) };
        let out = base64(s);
        assert(out.take(4) =~= encode_group(grp));
        let b0 = s[0] as u32;
        let b1: u32 = if 1 < s.len() { s[1] as u32 } else { 0 };
        let b2: u32 = if 2 < s.len() { s[2] as u32 } else { 0 };
        assert(group_value(grp) == b0 * 65536 + b1 * 256 + b2);
        lemma_sextets_of_bytes(b0, b1, b2);
        lemma_sextet_char_is_standard((b0 / 4) as int);
        lemma_sextet_char_is_standard((b0 % 4) * 16 + b1 / 16);
        lemma_sextet_char_is_standard((b1 % 16) * 4 + b2 / 64);
        lemma_sextet_char_is_standard((b2 % 64) as int);
        assert(out[0] == out.take(4)[0]);
        assert(out[1] == out.take(4)[1]);
        assert(out[2] == out.take(4)[2]);
        assert(out[3] == out.take(4)[3]);
    } else {
        let rest = s.skip(3);
        lemma_base64_positions(rest, g - 1);
        let out = base64(s);
        assert(out == encode_group(s.take(3)) + base64(rest));
        assert(rest[3 * (g - 1)] == s[3 * g]);
        assert(3 * (g - 1) + 1 < rest.len() ==> rest[3 * (g - 1) + 1] == s[3 * g + 1]);
        assert(3 * (g - 1) + 2 < rest.len() ==> rest[3 * (g - 1) + 2] == s[3 * g + 2]);
        assert(out[4 * g] == base64(rest)[4 * (g - 1)]);
        assert(out[4 * g + 1] == base64(rest)[4 * (g - 1) + 1]);
        assert(out[4 * g + 2] == base64(rest)[4 * (g - 1) + 2]);
        assert(out[4 * g + 3] == base64(rest)[4 * (g - 1) + 3]);
    }
}

} // verus!
