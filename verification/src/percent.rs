//! Percent-encoding of strings for URL components.
//!
//! Unreserved characters pass through; every other character is
//! replaced by the uppercase-hex escape of each byte of its UTF-8
//! encoding.

use vstd::prelude::*;
use vstd::utf8::encode_scalar;
use crate::strutil::push_char;

verus! {

/// Characters that percent-encoding passes through unchanged.
pub open spec fn is_unreserved(c: char) -> bool {
    ||| 'a' <= c && c <= 'z'
    ||| 'A' <= c && c <= 'Z'
    ||| '0' <= c && c <= '9'
    ||| c == '-'
    ||| c == '_'
    ||| c == '.'
    ||| c == '~'
}

/// The uppercase hexadecimal digit for a nibble.
pub open spec fn hex_char(n: u8) -> char
    recommends
        n < 16,
{
    if n < 10 {
        (((n + 0x30) as u8) as char)
    } else {
        (((n + 0x37) as u8) as char)
    }
}

/// The three-character `%XX` escape block for one byte.
pub open spec fn pct_block(b: u8) -> Seq<char> {
    seq!['%', hex_char(b / 16), hex_char(b % 16)]
}

/// The `%XX` escape blocks for a byte sequence.
pub open spec fn pct_hex(bs: Seq<u8>) -> Seq<char>
    decreases bs.len(),
{
    if bs.len() == 0 {
        Seq::empty()
    } else {
        pct_block(bs[0]) + pct_hex(bs.skip(1))
    }
}

/// The characters a single character encodes to.
pub open spec fn pct_code(c: char) -> Seq<char> {
    if is_unreserved(c) {
        seq![c]
    } else {
        pct_hex(encode_scalar(c as u32))
    }
}

/// Percent-encoding of a whole character sequence.
pub open spec fn pct_encode(s: Seq<char>) -> Seq<char>
    decreases s.len(),
{
    if s.len() == 0 {
        Seq::empty()
    } else {
        pct_code(s[0]) + pct_encode(s.skip(1))
    }
}

/// Appending one byte on the right extends the escape blocks by one block.
pub proof fn lemma_pct_hex_push(bs: Seq<u8>, b: u8)
    ensures
        pct_hex(bs.push(b)) == pct_hex(bs) + pct_block(b),
    decreases bs.len(),
{
    if bs.len() == 0 {
        assert(bs.push(b).skip(1) =~= Seq::<u8>::empty());
        assert(pct_hex(bs.push(b).skip(1)) =~= Seq::<char>::empty());
        assert(pct_hex(bs.push(b)) =~= pct_hex(bs) + pct_block(b));
    } else {
        assert(bs.push(b).skip(1) =~= bs.skip(1).push(b));
        lemma_pct_hex_push(bs.skip(1), b);
        assert(pct_hex(bs.push(b)) =~= pct_hex(bs) + pct_block(b));
    }
}

/// Appending one character on the right extends the encoding by its code.
pub proof fn lemma_pct_encode_push(s: Seq<char>, c: char)
    ensures
        pct_encode(s.push(c)) == pct_encode(s) + pct_code(c),
    decreases s.len(),
{
    if s.len() == 0 {
        assert(s.push(c).skip(1) =~= Seq::<char>::empty());
        assert(pct_encode(s.push(c).skip(1)) =~= Seq::<char>::empty());
        assert(pct_encode(s.push(c)) =~= pct_encode(s) + pct_code(c));
    } else {
        assert(s.push(c).skip(1) =~= s.skip(1).push(c));
        lemma_pct_encode_push(s.skip(1), c);
        assert(pct_encode(s.push(c)) =~= pct_encode(s) + pct_code(c));
    }
}

/// Every byte contributes exactly three characters.
pub proof fn lemma_pct_hex_len(bs: Seq<u8>)
    ensures
        pct_hex(bs).len() == 3 * bs.len(),
    decreases bs.len(),
{
    if bs.len() == 0 {
    } else {
        lemma_pct_hex_len(bs.skip(1));
    }
}

/// The hexadecimal digit determines the nibble.
pub proof fn lemma_hex_char_inj(a: u8, b: u8)
    requires
        a < 16,
        b < 16,
        hex_char(a) == hex_char(b),
    ensures
        a == b,
{
    if a < 10 {
        assert(hex_char(a) as u32 == a + 0x30);
    } else {
        assert(hex_char(a) as u32 == a + 0x37);
    }
    if b < 10 {
        assert(hex_char(b) as u32 == b + 0x30);
    } else {
        assert(hex_char(b) as u32 == b + 0x37);
    }
}

/// The escape block determines the byte.
pub proof fn lemma_pct_block_inj(a: u8, b: u8)
    requires
        pct_block(a) == pct_block(b),
    ensures
        a == b,
{
    assert(pct_block(a)[1] == hex_char(a / 16) && pct_block(a)[2] == hex_char(a % 16));
    assert(pct_block(b)[1] == hex_char(b / 16) && pct_block(b)[2] == hex_char(b % 16));
    lemma_hex_char_inj(a / 16, b / 16);
    lemma_hex_char_inj(a % 16, b % 16);
}

/// Equal escape text comes from equal bytes.
pub proof fn lemma_pct_hex_inj(b1: Seq<u8>, b2: Seq<u8>)
    requires
        pct_hex(b1) == pct_hex(b2),
    ensures
        b1 == b2,
    decreases b1.len(),
{
    lemma_pct_hex_len(b1);
    lemma_pct_hex_len(b2);
    if b1.len() == 0 {
        assert(b1 =~= b2);
    } else {
        assert(pct_block(b1[0]) =~= pct_hex(b1).subrange(0, 3));
        assert(pct_block(b2[0]) =~= pct_hex(b2).subrange(0, 3));
        lemma_pct_block_inj(b1[0], b2[0]);
        assert(pct_hex(b1.skip(1)) =~= pct_hex(b1).subrange(3, pct_hex(b1).len() as int));
        assert(pct_hex(b2.skip(1)) =~= pct_hex(b2).subrange(3, pct_hex(b2).len() as int));
        lemma_pct_hex_inj(b1.skip(1), b2.skip(1));
        assert forall|i: int| 0 <= i < b1.len() implies b1[i] == b2[i] by {
            if i > 0 {
                assert(b1.skip(1)[i - 1] == b1[i]);
                assert(b2.skip(1)[i - 1] == b2[i]);
            }
        }
        assert(b1 =~= b2);
    }
}

/// The first UTF-8 byte of a scalar tells the encoding's length.
pub proof fn lemma_scalar_first_byte(u: u32)
    requires
        vstd::utf8::is_scalar(u),
    ensures
        1 <= encode_scalar(u).len() <= 4,
        (encode_scalar(u)[0] < 0x80) <==> encode_scalar(u).len() == 1,
        (0xC0 <= encode_scalar(u)[0] < 0xE0) <==> encode_scalar(u).len() == 2,
        (0xE0 <= encode_scalar(u)[0] < 0xF0) <==> encode_scalar(u).len() == 3,
        (0xF0 <= encode_scalar(u)[0]) <==> encode_scalar(u).len() == 4,
{
    if vstd::utf8::has_width_1_encoding(u) {
        assert((u & 0x7F) < 0x80) by (bit_vector);
    } else if vstd::utf8::has_width_2_encoding(u) {
        assert(0xC0 <= (0xC0 | (((u >> 6) & 0x1F) as u8)) < 0xE0) by (bit_vector);
    } else if vstd::utf8::has_width_3_encoding(u) {
        assert(0xE0 <= (0xE0 | (((u >> 12) & 0x0F) as u8)) < 0xF0) by (bit_vector);
    } else {
        assert(0xF0 <= (0xF0 | (((u >> 18) & 0x7) as u8))) by (bit_vector);
    }
}

/// A character's code is never empty.
pub proof fn lemma_pct_code_len(c: char)
    ensures
        pct_code(c).len() >= 1,
        !is_unreserved(c) ==> pct_code(c).len() >= 3 && pct_code(c)[0] == '%',
{
    vstd::utf8::char_is_scalar(c);
    if !is_unreserved(c) {
        let bs = encode_scalar(c as u32);
        lemma_scalar_first_byte(c as u32);
        lemma_pct_hex_len(bs);
        assert(pct_hex(bs)[0] == '%');
    }
}

/// The UTF-8 encoding of a single character is its scalar encoding.
pub proof fn lemma_encode_utf8_single(c: char)
    ensures
        vstd::utf8::encode_utf8(seq![c]) == encode_scalar(c as u32),
{
    assert(seq![c].skip(1) =~= Seq::<char>::empty());
    assert(vstd::utf8::encode_utf8(seq![c].skip(1)) =~= Seq::<u8>::empty());
    assert(vstd::utf8::encode_utf8(seq![c]) =~= encode_scalar(c as u32));
}

/// Splitting equal concatenations at the same offset gives equal parts.
pub proof fn lemma_cancel_prefix(p: Seq<char>, q: Seq<char>, u: Seq<char>, v: Seq<char>)
    requires
        p + u == q + v,
        p.len() == q.len(),
    ensures
        p == q,
        u == v,
{
    assert(p =~= (p + u).subrange(0, p.len() as int));
    assert(q =~= (q + v).subrange(0, q.len() as int));
    assert(u =~= (p + u).subrange(p.len() as int, (p + u).len() as int));
    assert(v =~= (q + v).subrange(q.len() as int, (q + v).len() as int));
}

/// Whatever follows, the first character of the input is recoverable
/// from the encoding: codes never run into each other.
pub proof fn lemma_pct_code_step(c1: char, c2: char, r1: Seq<char>, r2: Seq<char>)
    requires
        pct_code(c1) + r1 == pct_code(c2) + r2,
    ensures
        c1 == c2,
        r1 == r2,
{
    vstd::utf8::char_is_scalar(c1);
    vstd::utf8::char_is_scalar(c2);
    lemma_pct_code_len(c1);
    lemma_pct_code_len(c2);
    let t1 = pct_code(c1) + r1;
    let t2 = pct_code(c2) + r2;
    assert(t1[0] == pct_code(c1)[0]);
    assert(t2[0] == pct_code(c2)[0]);
    if is_unreserved(c1) && is_unreserved(c2) {
        assert(c1 == c2);
        lemma_cancel_prefix(pct_code(c1), pct_code(c2), r1, r2);
    } else if is_unreserved(c1) && !is_unreserved(c2) {
        assert(t1[0] == c1 && t2[0] == '%');
        assert(false);
    } else if !is_unreserved(c1) && is_unreserved(c2) {
        assert(t1[0] == '%' && t2[0] == c2);
        assert(false);
    } else {
        let u1 = c1 as u32;
        let u2 = c2 as u32;
        let b1 = encode_scalar(u1);
        let b2 = encode_scalar(u2);
        lemma_scalar_first_byte(u1);
        lemma_scalar_first_byte(u2);
        lemma_pct_hex_len(b1);
        lemma_pct_hex_len(b2);
        assert(pct_hex(b1)[1] == hex_char(b1[0] / 16) && pct_hex(b1)[2] == hex_char(b1[0] % 16));
        assert(pct_hex(b2)[1] == hex_char(b2[0] / 16) && pct_hex(b2)[2] == hex_char(b2[0] % 16));
        assert(t1[1] == pct_hex(b1)[1] && t1[2] == pct_hex(b1)[2]);
        assert(t2[1] == pct_hex(b2)[1] && t2[2] == pct_hex(b2)[2]);
        lemma_hex_char_inj(b1[0] / 16, b2[0] / 16);
        lemma_hex_char_inj(b1[0] % 16, b2[0] % 16);
        assert(b1[0] == b2[0]);
        assert(b1.len() == b2.len());
        assert(pct_code(c1).len() == pct_code(c2).len());
        lemma_cancel_prefix(pct_code(c1), pct_code(c2), r1, r2);
        lemma_pct_hex_inj(b1, b2);
        lemma_encode_utf8_single(c1);
        lemma_encode_utf8_single(c2);
        vstd::utf8::encode_utf8_decode_utf8(seq![c1]);
        vstd::utf8::encode_utf8_decode_utf8(seq![c2]);
        assert(seq![c1] == seq![c2]);
        assert(c1 == seq![c1][0]);
    }
}

/// Percent-encoding is injective: equal encodings come from equal text.
pub proof fn lemma_pct_encode_injective(s1: Seq<char>, s2: Seq<char>)
    requires
        pct_encode(s1) == pct_encode(s2),
    ensures
        s1 == s2,
    decreases s1.len(),
{
    if s1.len() == 0 && s2.len() == 0 {
        assert(s1 =~= s2);
    } else if s1.len() == 0 {
        lemma_pct_code_len(s2[0]);
        assert(pct_encode(s2).len() >= pct_code(s2[0]).len());
        assert(false);
    } else if s2.len() == 0 {
        lemma_pct_code_len(s1[0]);
        assert(pct_encode(s1).len() >= pct_code(s1[0]).len());
        assert(false);
    } else {
        lemma_pct_code_step(s1[0], s2[0], pct_encode(s1.skip(1)), pct_encode(s2.skip(1)));
        lemma_pct_encode_injective(s1.skip(1), s2.skip(1));
        assert forall|i: int| 0 <= i < s1.len() implies s1[i] == s2[i] by {
            if i > 0 {
                assert(s1.skip(1)[i - 1] == s1[i]);
                assert(s2.skip(1)[i - 1] == s2[i]);
            }
        }
        assert(s1 =~= s2);
    }
}

fn hex_char_exec(n: u8) -> (c: char)
    requires
        n < 16,
    ensures
        c == hex_char(n),
{
    if n < 10 {
        (n + 0x30) as char
    } else {
        (n + 0x37) as char
    }
}

/// Appends the `%XX` escape blocks of every byte in `bs`.
pub fn push_pct_bytes(out: &mut String, bs: &Vec<u8>)
    ensures
        final(out)@ == old(out)@ + pct_hex(bs@),
{
    let mut i: usize = 0;
    while i < bs.len()
        invariant
            i <= bs@.len(),
            out@ == old(out)@ + pct_hex(bs@.subrange(0, i as int)),
        decreases bs@.len() - i,
    {
        let b = bs[i];
        push_char(out, '%');
        push_char(out, hex_char_exec(b / 16));
        push_char(out, hex_char_exec(b % 16));
        proof {
            assert(bs@.subrange(0, i + 1) =~= bs@.subrange(0, i as int).push(b));
            lemma_pct_hex_push(bs@.subrange(0, i as int), b);
            assert(out@ =~= old(out)@ + pct_hex(bs@.subrange(0, i + 1)));
        }
        i += 1;
    }
    proof {
        assert(bs@.subrange(0, bs@.len() as int) =~= bs@);
        assert(pct_hex(Seq::<u8>::empty()) =~= Seq::<char>::empty());
        assert(bs@.subrange(0, 0) =~= Seq::<u8>::empty());
    }
}

fn is_unreserved_exec(c: char) -> (r: bool)
    ensures
        r == is_unreserved(c),
{
    ('a' <= c && c <= 'z') || ('A' <= c && c <= 'Z') || ('0' <= c && c <= '9') || c == '-' || c
        == '_' || c == '.' || c == '~'
}

/// The UTF-8 bytes of one character, as [`encode_scalar`] gives them.
pub fn utf8_bytes_of_char(c: char) -> (bs: Vec<u8>)
    ensures
        bs@ == encode_scalar(c as u32),
{
    proof {
        vstd::utf8::char_is_scalar(c);
    }
    let u = c as u32;
    let mut bs: Vec<u8> = Vec::new();
    if u < 0x80 {
        bs.push((u & 0x7F) as u8);
        proof {
            assert(bs@ =~= encode_scalar(c as u32));
        }
    } else if u < 0x800 {
        bs.push(0xC0 | (((u >> 6) & 0x1F) as u8));
        bs.push(0x80 | ((u & 0x3F) as u8));
        proof {
            assert(bs@ =~= encode_scalar(c as u32));
        }
    } else if u < 0x10000 {
        bs.push(0xE0 | (((u >> 12) & 0x0F) as u8));
        bs.push(0x80 | (((u >> 6) & 0x3F) as u8));
        bs.push(0x80 | ((u & 0x3F) as u8));
        proof {
            assert(bs@ =~= encode_scalar(c as u32));
        }
    } else {
        bs.push(0xF0 | (((u >> 18) & 0x7) as u8));
        bs.push(0x80 | (((u >> 12) & 0x3F) as u8));
        bs.push(0x80 | (((u >> 6) & 0x3F) as u8));
        bs.push(0x80 | ((u & 0x3F) as u8));
        proof {
            assert(bs@ =~= encode_scalar(c as u32));
        }
    }
    bs
}

/// Percent-encodes a string: unreserved characters stay, every other
/// character becomes the `%XX` escapes of its UTF-8 bytes.
pub fn encode(input: &str) -> (r: String)
    ensures
        r@ == pct_encode(input@),
{
    let n = input.unicode_len();
    let mut out = String::new();
    let mut i: usize = 0;
    while i < n
        invariant
            i <= n,
            n == input@.len(),
            out@ == pct_encode(input@.subrange(0, i as int)),
        decreases n - i,
    {
        let c = input.get_char(i);
        let ghost pre = out@;
        if is_unreserved_exec(c) {
            push_char(&mut out, c);
            proof {
                assert(out@ =~= pre + pct_code(c));
            }
        } else {
            let bs = utf8_bytes_of_char(c);
            push_pct_bytes(&mut out, &bs);
        }
        proof {
            assert(input@.subrange(0, i + 1) =~= input@.subrange(0, i as int).push(
                input@[i as int],
            ));
            lemma_pct_encode_push(input@.subrange(0, i as int), input@[i as int]);
        }
        i += 1;
    }
    proof {
        assert(input@.subrange(0, n as int) =~= input@);
        assert(pct_encode(input@.subrange(0, 0)) =~= Seq::<char>::empty());
    }
    out
}

/// Percent-encodes a URL path segment; same escape set as [`encode`].
pub fn encode_uri_component(s: &str) -> (r: String)
    ensures
        r@ == pct_encode(s@),
{
    encode(s)
}

} // verus!
